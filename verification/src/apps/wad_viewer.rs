//! The WAD viewer's state: which archive is open, its maps, and the map
//! shown. Drawing the map and the pan/zoom view belong to the window.
use vstd::prelude::*;
use std::sync::Arc;

use crate::text::{push_all, chars_of};
use crate::wad::{map_header_names, DoomMap, Wad, WadError};

verus! {

/// What the viewer holds: nothing (with the error of the last load, if
/// any), or an archive with its map names and the map shown.
pub enum ViewerState {
    Empty { error: Option<String> },
    Loaded { path: std::path::PathBuf, wad: Arc<Wad>, map_names: Vec<String>, selected: String, map: DoomMap },
}

/// The WAD viewer.
pub struct WadViewer {
    pub state: ViewerState,
    /// Whether things are drawn; kept across map switches.
    pub show_things: bool,
    /// Whether decorations are drawn.
    pub show_decorations: bool,
}

impl Default for WadViewer {
    /// Nothing loaded; things shown, decorations hidden.
    fn default() -> (v: Self)
        ensures
            v.state matches ViewerState::Empty { error: None },
            v.show_things,
            !v.show_decorations,
    {
        WadViewer { state: ViewerState::Empty { error: None }, show_things: true, show_decorations: false }
    }
}

/// `Path::display`, as text. Path syntax depends on the platform, so no
/// result is promised here.
#[verifier::external_body]
pub(crate) fn path_display(path: &std::path::PathBuf) -> (r: String) {
    path.display().to_string()
}

/// `a` followed by `b`.
fn concat(a: &str, b: &str) -> (r: String)
    ensures
        r@ == a@ + b@,
{
    let mut r = String::from_str(a);
    r.append(b);
    r
}

/// The text of a string starts with `p`.
pub open spec fn starts(s: Seq<char>, p: Seq<char>) -> bool {
    s.len() >= p.len() && s.take(p.len() as int) == p
}

/// The error of the viewer after a failed load starts with `p`.
pub open spec fn failed_with(v: WadViewer, p: Seq<char>) -> bool {
    v.state matches ViewerState::Empty { error: Some(e) } && starts(e@, p)
}

impl WadViewer {
    /// Takes the result of reading the archive at `path`: on success it
    /// shows the first map; an unreadable archive, one without maps, or a
    /// first map that does not read leave the viewer empty with an error.
    /// Returns whether the view should be fitted to the new map.
    pub fn load(&mut self, path: std::path::PathBuf, read: Result<Wad, WadError>) -> (fit: bool)
        ensures
            final(self).show_things == old(self).show_things,
            final(self).show_decorations == old(self).show_decorations,
            match read {
                Err(e) => !fit && failed_with(*final(self), "failed to load "@),
                Ok(w) => {
                    let names = map_header_names(w.lumps@);
                    if names.len() == 0 {
                        !fit && final(self).state matches ViewerState::Empty { error: Some(_) }
                    } else if w.spec_map_parts(names[0]) is None {
                        !fit && failed_with(*final(self), "failed to read "@ + names[0] + ": "@)
                    } else {
                        &&& fit
                        &&& final(self).state matches ViewerState::Loaded { path: p, wad, map_names, selected, map }
                            && p == path && *wad == w && map_names@.map_values(|s: String| s@) == names
                            && selected@ == names[0] && map.name@ == names[0] && w.spec_map_parts(names[0]) == Some(
                            (map.vertexes@, map.linedefs@, map.things@),
                        )
                    }
                },
            },
    {
        match read {
            Ok(wad) => {
                let map_names = wad.map_names();
                if map_names.len() == 0 {
                    let shown = path_display(&path);
                    let e = concat(shown.as_str(), " contains no maps (E#M# / MAP## lumps)");
                    self.state = ViewerState::Empty { error: Some(e) };
                    return false;
                }
                let selected = map_names[0].clone();
                assert(map_names@.map_values(|s: String| s@)[0] == map_names@[0]@);
                match wad.load_map(selected.as_str()) {
                    Ok(map) => {
                        self.state = ViewerState::Loaded { path, wad: Arc::new(wad), map_names, selected, map };
                        true
                    },
                    Err(e) => {
                        let mut msg = concat("failed to read ", selected.as_str());
                        msg.append(": ");
                        push_all(&mut msg, &chars_of(e.message().as_str()));
                        proof {
                            reveal_strlit("failed to read ");
                            reveal_strlit(": ");
                        }
                        let ghost p = "failed to read "@ + selected@ + ": "@;
                        assert(msg@.take(p.len() as int) =~= p);
                        self.state = ViewerState::Empty { error: Some(msg) };
                        false
                    },
                }
            },
            Err(e) => {
                let mut msg = concat("failed to load ", path_display(&path).as_str());
                msg.append(": ");
                push_all(&mut msg, &chars_of(e.message().as_str()));
                proof {
                    reveal_strlit("failed to load ");
                }
                assert(msg@.take(15) =~= "failed to load "@);
                self.state = ViewerState::Empty { error: Some(msg) };
                false
            },
        }
    }

    /// Shows the named map of the open archive. Nothing changes without an
    /// archive, for the map already shown, or when the map does not read.
    /// Returns whether the view should be fitted to the new map.
    pub fn switch_map(&mut self, name: &str) -> (fit: bool)
        ensures
            final(self).show_things == old(self).show_things,
            final(self).show_decorations == old(self).show_decorations,
            match old(self).state {
                ViewerState::Loaded { path, wad, map_names, selected, map } => if selected@ != name@
                    && wad.spec_map_parts(name@) is Some {
                    &&& fit
                    &&& final(self).state matches ViewerState::Loaded {
                        path: p2,
                        wad: w2,
                        map_names: n2,
                        selected: s2,
                        map: m2,
                    } && p2 == path && w2 == wad && n2 == map_names && s2@ == name@ && m2.name@ == name@
                        && wad.spec_map_parts(name@) == Some((m2.vertexes@, m2.linedefs@, m2.things@))
                } else {
                    !fit && final(self).state == old(self).state
                },
                ViewerState::Empty { .. } => !fit && final(self).state == old(self).state,
            },
    {
        let loaded = match &self.state {
            ViewerState::Loaded { wad, selected, .. } => {
                if crate::text::str_eq(selected.as_str(), name) {
                    return false;
                }
                match wad.load_map(name) {
                    Ok(m) => m,
                    Err(_) => return false,
                }
            },
            ViewerState::Empty { .. } => return false,
        };
        let mut old_state = ViewerState::Empty { error: None };
        std::mem::swap(&mut old_state, &mut self.state);
        match old_state {
            ViewerState::Loaded { path, wad, map_names, .. } => {
                self.state = ViewerState::Loaded { path, wad, map_names, selected: name.to_owned(), map: loaded };
            },
            ViewerState::Empty { error } => {
                self.state = ViewerState::Empty { error };
            },
        }
        true
    }

    /// Path of the open archive, if any.
    pub fn loaded_path(&self) -> (r: Option<&std::path::PathBuf>)
        ensures
            match self.state {
                ViewerState::Loaded { path, .. } => r == Some(&path),
                ViewerState::Empty { .. } => r is None,
            },
    {
        match &self.state {
            ViewerState::Loaded { path, .. } => Some(path),
            ViewerState::Empty { .. } => None,
        }
    }
}

} // verus!
