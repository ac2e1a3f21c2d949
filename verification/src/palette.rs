//! Named colour schemes and the Poline curve families. The colour
//! arithmetic itself is floating point and lives with the renderer; this
//! module holds the scheme catalogue and its stable numbering.
use vstd::prelude::*;
use vstd::utf8::encode_utf8;

verus! {

/// Shape of the interpolation curve between two anchor hues.
#[derive(Clone, Copy, Debug, PartialEq, Eq, Structural)]
pub enum Curve {
    Linear,
    Sinusoidal,
    Arc,
    Quadratic,
}

/// Poline position function family: each maps `t` in `[0, 1]` to `[0, 1]`.
#[derive(Clone, Copy, Debug, PartialEq, Eq, Structural)]
pub enum PositionFn {
    Linear,
    Sinusoidal,
    ASinusoidal,
    Exponential,
    Quadratic,
    Cubic,
    Quartic,
    Arc,
    SmoothStep,
}

/// Schemes the user can switch between from the command palette. The
/// declaration order is the stable numbering used to store the active
/// scheme.
#[derive(Clone, Copy, Debug, PartialEq, Eq, Structural)]
pub enum Scheme {
    TimeOfDay,
    Sunset,
    Forest,
    Tide,
    Ember,
    Moss,
    Plum,
    Mono,
    /// User-edited palette; falls back to `TimeOfDay` while unset.
    Custom,
}

/// Number of schemes.
pub const SCHEME_COUNT: u8 = 9;

/// The scheme numbered `i`, if any.
pub open spec fn spec_scheme_at(i: int) -> Option<Scheme> {
    if i == 0 {
        Some(Scheme::TimeOfDay)
    } else if i == 1 {
        Some(Scheme::Sunset)
    } else if i == 2 {
        Some(Scheme::Forest)
    } else if i == 3 {
        Some(Scheme::Tide)
    } else if i == 4 {
        Some(Scheme::Ember)
    } else if i == 5 {
        Some(Scheme::Moss)
    } else if i == 6 {
        Some(Scheme::Plum)
    } else if i == 7 {
        Some(Scheme::Mono)
    } else if i == 8 {
        Some(Scheme::Custom)
    } else {
        None
    }
}

/// The number of a scheme (its position in declaration order).
pub open spec fn spec_scheme_index(s: Scheme) -> u8 {
    match s {
        Scheme::TimeOfDay => 0,
        Scheme::Sunset => 1,
        Scheme::Forest => 2,
        Scheme::Tide => 3,
        Scheme::Ember => 4,
        Scheme::Moss => 5,
        Scheme::Plum => 6,
        Scheme::Mono => 7,
        Scheme::Custom => 8,
    }
}

pub open spec fn spec_scheme_label(s: Scheme) -> Seq<char> {
    match s {
        Scheme::TimeOfDay => "Time of Day"@,
        Scheme::Sunset => "Sunset"@,
        Scheme::Forest => "Forest"@,
        Scheme::Tide => "Tide"@,
        Scheme::Ember => "Ember"@,
        Scheme::Moss => "Moss"@,
        Scheme::Plum => "Plum"@,
        Scheme::Mono => "Mono"@,
        Scheme::Custom => "Custom"@,
    }
}

impl Scheme {
    /// Every scheme, in numbering order.
    pub fn all() -> (v: Vec<Scheme>)
        ensures
            v@.len() == SCHEME_COUNT,
            forall|i: int| 0 <= i < v@.len() ==> spec_scheme_at(i) == Some(#[trigger] v@[i]),
    {
        let v = vec![
            Scheme::TimeOfDay,
            Scheme::Sunset,
            Scheme::Forest,
            Scheme::Tide,
            Scheme::Ember,
            Scheme::Moss,
            Scheme::Plum,
            Scheme::Mono,
            Scheme::Custom,
        ];
        v
    }

    pub fn label(self) -> (r: &'static str)
        ensures
            r@ == spec_scheme_label(self),
    {
        match self {
            Scheme::TimeOfDay => "Time of Day",
            Scheme::Sunset => "Sunset",
            Scheme::Forest => "Forest",
            Scheme::Tide => "Tide",
            Scheme::Ember => "Ember",
            Scheme::Moss => "Moss",
            Scheme::Plum => "Plum",
            Scheme::Mono => "Mono",
            Scheme::Custom => "Custom",
        }
    }

    /// The scheme numbered `i`; out-of-range numbers give `TimeOfDay`.
    pub fn from_index(i: u8) -> (s: Self)
        ensures
            s == (match spec_scheme_at(i as int) {
                Some(t) => t,
                None => Scheme::TimeOfDay,
            }),
    {
        match i {
            0 => Scheme::TimeOfDay,
            1 => Scheme::Sunset,
            2 => Scheme::Forest,
            3 => Scheme::Tide,
            4 => Scheme::Ember,
            5 => Scheme::Moss,
            6 => Scheme::Plum,
            7 => Scheme::Mono,
            8 => Scheme::Custom,
            _ => Scheme::TimeOfDay,
        }
    }

    /// The number of this scheme.
    pub fn to_index(self) -> (i: u8)
        ensures
            i == spec_scheme_index(self),
            i < SCHEME_COUNT,
    {
        match self {
            Scheme::TimeOfDay => 0,
            Scheme::Sunset => 1,
            Scheme::Forest => 2,
            Scheme::Tide => 3,
            Scheme::Ember => 4,
            Scheme::Moss => 5,
            Scheme::Plum => 6,
            Scheme::Mono => 7,
            Scheme::Custom => 8,
        }
    }
}

/// Storing a scheme by its number and reading it back gives the same
/// scheme.
pub proof fn law_scheme_index_round_trip(s: Scheme)
    ensures
        spec_scheme_at(spec_scheme_index(s) as int) == Some(s),
{
}

/// Every number below the scheme count names a scheme whose number it
/// is; numbers are therefore a bijection onto the schemes.
pub proof fn law_scheme_numbering_bijective(i: int)
    requires
        0 <= i < SCHEME_COUNT,
    ensures
        spec_scheme_at(i) matches Some(s) && spec_scheme_index(s) == i,
{
}

/// The 32-bit FNV-1a hash of `bytes`: start from the offset basis, then
/// for each byte xor it in and multiply by the FNV prime, wrapping.
pub open spec fn fnv1a(bytes: Seq<u8>) -> u32
    decreases bytes.len(),
{
    if bytes.len() == 0 {
        0x811C_9DC5u32
    } else {
        let h = fnv1a(bytes.drop_last()) ^ (bytes.last() as u32);
        ((h as nat * 0x0100_0193nat) % 0x1_0000_0000nat) as u32
    }
}

/// The palette slot for `key` among `len` colours: the FNV-1a hash of its
/// UTF-8 bytes modulo `len`, so equal keys always get the same colour.
pub fn key_index(key: &str, len: usize) -> (i: usize)
    requires
        len > 0,
    ensures
        i as int == fnv1a(encode_utf8(key@)) as int % len as int,
        i < len,
{
    let bytes = key.as_bytes();
    let mut h: u32 = 0x811C_9DC5;
    let mut k: usize = 0;
    while k < bytes.len()
        invariant
            k <= bytes@.len(),
            bytes@ == encode_utf8(key@),
            h == fnv1a(bytes@.take(k as int)),
        decreases bytes@.len() - k,
    {
        proof {
            assert(bytes@.take(k + 1).drop_last() =~= bytes@.take(k as int));
        }
        h = h ^ (bytes[k] as u32);
        h = h.wrapping_mul(0x0100_0193);
        k = k + 1;
    }
    proof {
        assert(bytes@.take(bytes@.len() as int) =~= bytes@);
    }
    (h as usize) % len
}

} // verus!
