//! Doom WAD archive parser: header, directory and the map lumps
//! (VERTEXES, LINEDEFS, THINGS) a top-down map viewer needs.
//!
//! Layout (all numbers little-endian):
//!   header (12 bytes): 4-byte magic "IWAD"/"PWAD", u32 lump count,
//!   u32 directory offset; each directory entry (16 bytes): u32 lump
//!   offset, u32 lump size, 8-byte NUL-padded name.
use vstd::prelude::*;
use vstd::utf8::*;

use crate::digital_garden::render_state::{decimal, decimal_string};
use crate::text::{str_eq};

verus! {

/// `std::io::Error`, carried by the I/O variant of `WadError`.
#[verifier::external_type_specification]
#[verifier::external_body]
pub struct ExIoError(std::io::Error);

/// Why a WAD could not be read.
#[derive(Debug)]
pub enum WadError {
    Io(std::io::Error),
    Format(String),
}

/// The `Display` text of an I/O error. It comes from the operating
/// system, so no result is promised here.
#[verifier::external_body]
fn io_error_text(e: &std::io::Error) -> (r: String) {
    e.to_string()
}

impl WadError {
    /// The error as text: `I/O error: ` or `WAD format error: ` and the
    /// detail.
    pub fn message(&self) -> (r: String)
        ensures
            match self {
                WadError::Format(s) => r@ == "WAD format error: "@ + s@,
                WadError::Io(_) => r@.len() >= 11 && r@.take(11) == "I/O error: "@,
            },
    {
        match self {
            WadError::Io(e) => {
                let mut r = String::from_str("I/O error: ");
                let ghost head = r@;
                r.append(io_error_text(e).as_str());
                proof {
                    reveal_strlit("I/O error: ");
                }
                assert(r@.take(11) =~= head);
                r
            },
            WadError::Format(s) => {
                let mut r = String::from_str("WAD format error: ");
                r.append(s.as_str());
                r
            },
        }
    }
}

#[derive(Debug, Clone, Copy, PartialEq, Eq, Structural)]
pub enum WadKind {
    Iwad,
    Pwad,
}

/// One directory entry.
#[derive(Debug, Clone)]
pub struct Lump {
    pub name: String,
    pub offset: usize,
    pub size: usize,
}

/// A parsed archive: its kind, its directory, and the raw file bytes the
/// lumps point into (readable so that contracts can speak of them).
pub struct Wad {
    pub kind: WadKind,
    pub lumps: Vec<Lump>,
    pub bytes: Vec<u8>,
}

// ---------- byte-level model ----------

/// Little-endian unsigned 16-bit value at `off`.
pub open spec fn le_u16(b: Seq<u8>, off: int) -> int {
    b[off] + 256 * b[off + 1]
}

/// Little-endian two's-complement 16-bit value at `off`.
pub open spec fn le_i16(b: Seq<u8>, off: int) -> int {
    let v = le_u16(b, off);
    if v >= 32768 {
        v - 65536
    } else {
        v
    }
}

/// Little-endian unsigned 32-bit value at `off`.
pub open spec fn le_u32(b: Seq<u8>, off: int) -> int {
    le_u16(b, off) + 65536 * le_u16(b, off + 2)
}

/// Index of the first NUL byte, or the length when there is none.
pub open spec fn first_nul(b: Seq<u8>) -> nat
    decreases b.len(),
{
    if b.len() == 0 {
        0
    } else if b[0] == 0 {
        0
    } else {
        1 + first_nul(b.drop_first())
    }
}

/// What `String::from_utf8_lossy` makes of a byte sequence.
pub uninterp spec fn lossy_utf8(b: Seq<u8>) -> Seq<char>;

/// The name stored in an 8-byte, NUL-padded name field: the bytes before
/// the first NUL, decoded as UTF-8 (lossily where they are not valid).
pub open spec fn lump_name(field: Seq<u8>) -> Seq<char> {
    let bs = field.take(first_nul(field) as int);
    if valid_utf8(bs) {
        decode_utf8(bs)
    } else {
        lossy_utf8(bs)
    }
}

/// ASCII bytes are valid UTF-8 and decode one character per byte, so an
/// ASCII lump name such as `PLAYPAL` reads back exactly.
pub proof fn lemma_ascii_decodes(bs: Seq<u8>)
    requires
        forall|i: int| 0 <= i < bs.len() ==> bs[i] < 128,
    ensures
        valid_utf8(bs),
        decode_utf8(bs) == bs.map_values(|b: u8| b as char),
    decreases bs.len(),
{
    if bs.len() > 0 {
        let b = bs[0];
        assert((b & 0x7F) as u32 == b as u32) by (bit_vector)
            requires
                b < 128,
        ;
        assert(pop_first_scalar(bs) =~= bs.drop_first());
        lemma_ascii_decodes(bs.drop_first());
        assert(decode_utf8(bs) =~= bs.map_values(|b: u8| b as char));
    }
}

/// The archive kind a 4-byte magic denotes.
pub open spec fn magic_kind(b: Seq<u8>) -> Option<WadKind> {
    if b[0] == 73 && b[1] == 87 && b[2] == 65 && b[3] == 68 {
        Some(WadKind::Iwad)  // "IWAD"
    } else if b[0] == 80 && b[1] == 87 && b[2] == 65 && b[3] == 68 {
        Some(WadKind::Pwad)  // "PWAD"
    } else {
        None
    }
}

/// Number of directory entries declared by the header.
pub open spec fn header_count(b: Seq<u8>) -> int {
    le_u32(b, 4)
}

/// File offset of the directory declared by the header.
pub open spec fn header_dir(b: Seq<u8>) -> int {
    le_u32(b, 8)
}

/// A header that `Wad::from_bytes` accepts: long enough, a known magic,
/// and a directory that ends inside the file.
pub open spec fn header_ok(b: Seq<u8>) -> bool {
    &&& b.len() >= 12
    &&& magic_kind(b) is Some
    &&& header_dir(b) + 16 * header_count(b) <= b.len()
}

/// Directory entry `i` of the file `b`, decoded.
pub open spec fn entry_matches(l: Lump, b: Seq<u8>, i: int) -> bool {
    let base = header_dir(b) + 16 * i;
    &&& l.offset == le_u32(b, base)
    &&& l.size == le_u32(b, base + 4)
    &&& l.name@ == lump_name(b.subrange(base + 8, base + 16))
}

// ---------- raw readers ----------

fn read_u16_le(bytes: &[u8], offset: usize) -> (r: u16)
    requires
        offset + 2 <= bytes@.len(),
    ensures
        r == le_u16(bytes@, offset as int),
{
    let lo: u16 = bytes[offset] as u16;
    let hi: u16 = bytes[offset + 1] as u16;
    lo + hi * 256
}

fn read_i16_le(bytes: &[u8], offset: usize) -> (r: i16)
    requires
        offset + 2 <= bytes@.len(),
    ensures
        r == le_i16(bytes@, offset as int),
{
    let v: u16 = read_u16_le(bytes, offset);
    if v < 32768 {
        v as i16
    } else {
        let w: i32 = v as i32 - 65536;
        w as i16
    }
}

fn read_u32_le(bytes: &[u8], offset: usize) -> (r: u32)
    requires
        offset + 4 <= bytes@.len(),
    ensures
        r == le_u32(bytes@, offset as int),
{
    let len = bytes.len();
    let lo: u32 = read_u16_le(bytes, offset) as u32;
    let hi: u32 = read_u16_le(bytes, offset + 2) as u32;
    lo + hi * 65536
}

/// `String::from_utf8_lossy`: decodes UTF-8, replacing each invalid
/// sequence by U+FFFD. Valid input decodes exactly; what invalid input
/// becomes is only named (`lossy_utf8`), not spelled out.
#[verifier::external_body]
fn lossy_string(b: &[u8]) -> (r: String)
    ensures
        r@ == lossy_utf8(b@),
        valid_utf8(b@) ==> r@ == decode_utf8(b@),
{
    String::from_utf8_lossy(b).into_owned()
}

proof fn lemma_first_nul(b: Seq<u8>, e: int)
    requires
        0 <= e <= b.len(),
        forall|k: int| 0 <= k < e ==> b[k] != 0,
        e == b.len() || b[e] == 0,
    ensures
        first_nul(b) == e,
    decreases e,
{
    if e > 0 {
        assert(b[0] != 0);
        let t = b.drop_first();
        assert forall|k: int| 0 <= k < e - 1 implies t[k] != 0 by {
            assert(t[k] == b[k + 1]);
        }
        if e - 1 < t.len() {
            assert(t[e - 1] == b[e]);
        }
        lemma_first_nul(t, e - 1);
    }
}

fn read_lump_name(bytes: &[u8]) -> (r: String)
    ensures
        r@ == lump_name(bytes@),
{
    let mut end: usize = 0;
    while end < bytes.len() && bytes[end] != 0
        invariant
            end <= bytes@.len(),
            forall|k: int| 0 <= k < end ==> bytes@[k] != 0,
        decreases bytes@.len() - end,
    {
        end = end + 1;
    }
    proof {
        lemma_first_nul(bytes@, end as int);
    }
    lossy_string(&bytes[0..end])
}

fn format_error(msg: &str) -> (e: WadError)
    ensures
        e matches WadError::Format(m) && m@ == msg@,
{
    WadError::Format(String::from_str(msg))
}

/// Appends `n` in decimal.
fn push_decimal(s: &mut String, n: usize)
    ensures
        final(s)@ == old(s)@ + decimal(n as nat),
{
    let d = decimal_string(n as u64);
    s.append(d.as_str());
}

/// The `Debug` text of a string: quoted, with quotes, backslashes and
/// unprintable characters escaped.
pub uninterp spec fn debug_quoted(s: Seq<char>) -> Seq<char>;

/// `<str as Debug>::fmt`, as text. Only named here (`debug_quoted`).
#[verifier::external_body]
fn quoted(s: &str) -> (r: String)
    ensures
        r@ == debug_quoted(s@),
{
    format!("{:?}", s)
}

fn named_error(prefix: &str, name: &str, suffix: &str) -> (e: WadError)
    ensures
        e matches WadError::Format(m) && m@ == prefix@ + name@ + suffix@,
{
    let mut s = String::from_str(prefix);
    s.append(name);
    s.append(suffix);
    WadError::Format(s)
}

impl Wad {
    /// The raw bytes of the file the archive was read from.
    pub open spec fn data(&self) -> Seq<u8> {
        self.bytes@
    }

    /// Parse a WAD from its raw bytes. Succeeds exactly when the header
    /// is well formed (`header_ok`); the directory is then decoded entry
    /// by entry. Lump extents are checked later, by `lump_bytes`.
    pub fn from_bytes(bytes: Vec<u8>) -> (r: Result<Self, WadError>)
        ensures
            r is Ok <==> header_ok(bytes@),
            r matches Err(e) ==> e is Format,
            r matches Ok(w) ==> {
                &&& w.data() == bytes@
                &&& Some(w.kind) == magic_kind(bytes@)
                &&& w.lumps@.len() == header_count(bytes@)
                &&& forall|i: int|
                    0 <= i < w.lumps@.len() ==> #[trigger] entry_matches(w.lumps@[i], bytes@, i)
            },
    {
        if bytes.len() < 12 {
            return Err(format_error("file shorter than header"));
        }
        let kind = if bytes[0] == 73u8 && bytes[1] == 87u8 && bytes[2] == 65u8 && bytes[3] == 68u8 {
            WadKind::Iwad
        } else if bytes[0] == 80u8 && bytes[1] == 87u8 && bytes[2] == 65u8 && bytes[3] == 68u8 {
            WadKind::Pwad
        } else {
            let magic = lossy_string(&bytes[0..4]);
            return Err(named_error("bad magic: ", quoted(magic.as_str()).as_str(), ""));
        };
        let num_lumps: usize = read_u32_le(bytes.as_slice(), 4) as usize;
        let dir_offset: usize = read_u32_le(bytes.as_slice(), 8) as usize;
        let dir_size = match num_lumps.checked_mul(16) {
            Some(s) => s,
            None => {
                let mut m = String::from_str("directory size overflow (");
                push_decimal(&mut m, num_lumps);
                m.append(" lumps)");
                return Err(WadError::Format(m));
            },
        };
        let dir_end = match dir_offset.checked_add(dir_size) {
            Some(e) => e,
            None => {
                return Err(format_error("directory end overflow"));
            },
        };
        if dir_end > bytes.len() {
            let mut m = String::from_str("directory extends past EOF (need ");
            push_decimal(&mut m, dir_end);
            m.append(", have ");
            push_decimal(&mut m, bytes.len());
            m.append(")");
            return Err(WadError::Format(m));
        }
        let mut lumps: Vec<Lump> = Vec::with_capacity(num_lumps);
        let mut i: usize = 0;
        let blen = bytes.len();
        while i < num_lumps
            invariant
                blen == bytes@.len(),
                bytes@.len() >= 12,
                num_lumps == header_count(bytes@),
                dir_offset == header_dir(bytes@),
                dir_offset + 16 * num_lumps <= bytes@.len(),
                i <= num_lumps,
                lumps@.len() == i,
                forall|k: int| 0 <= k < i ==> #[trigger] entry_matches(lumps@[k], bytes@, k),
            decreases num_lumps - i,
        {
            let base = dir_offset + i * 16;
            let offset = read_u32_le(bytes.as_slice(), base) as usize;
            let size = read_u32_le(bytes.as_slice(), base + 4) as usize;
            let name = read_lump_name(&bytes.as_slice()[base + 8..base + 16]);
            let ghost field = bytes@.subrange(base + 8, base + 16);
            lumps.push(Lump { name, offset, size });
            assert(entry_matches(lumps@[i as int], bytes@, i as int));
            i = i + 1;
        }
        Ok(Wad { kind, lumps, bytes })
    }

    /// The bytes of lump `idx`, when it lies inside the file. Empty lumps
    /// are returned empty whatever their offset.
    pub fn lump_bytes(&self, idx: usize) -> (r: Result<&[u8], WadError>)
        ensures
            r is Ok <==> (idx < self.lumps@.len() && (self.lumps@[idx as int].size == 0
                || self.lumps@[idx as int].offset + self.lumps@[idx as int].size
                <= self.data().len())),
            r matches Err(e) ==> e is Format,
            r matches Ok(s) ==> s@ == (if self.lumps@[idx as int].size == 0 {
                Seq::<u8>::empty()
            } else {
                self.data().subrange(
                    self.lumps@[idx as int].offset as int,
                    self.lumps@[idx as int].offset + self.lumps@[idx as int].size,
                )
            }),
    {
        if idx >= self.lumps.len() {
            let mut m = String::from_str("lump index ");
            push_decimal(&mut m, idx);
            m.append(" out of range");
            return Err(WadError::Format(m));
        }
        let l = &self.lumps[idx];
        let blen = self.bytes.len();
        if l.size == 0 {
            return Ok(&self.bytes.as_slice()[0..0]);
        }
        let end = match l.offset.checked_add(l.size) {
            Some(e) => e,
            None => {
                return Err(named_error("lump ", l.name.as_str(), " offset+size overflow"));
            },
        };
        if end > self.bytes.len() {
            let mut m = String::from_str("lump ");
            m.append(l.name.as_str());
            m.append(" (");
            push_decimal(&mut m, l.offset);
            m.append("+");
            push_decimal(&mut m, l.size);
            m.append(") past EOF (");
            push_decimal(&mut m, self.bytes.len());
            m.append(")");
            return Err(WadError::Format(m));
        }
        Ok(&self.bytes.as_slice()[l.offset..end])
    }

    /// Index of the first lump at or after `start` named `name`.
    pub fn find_lump_after(&self, start: usize, name: &str) -> (r: Option<usize>)
        ensures
            r == spec_find_after(self.lumps@, start as int, name@),
    {
        let mut i: usize = start;
        while i < self.lumps.len()
            invariant
                start <= i,
                forall|k: int| start <= k < i && k < self.lumps@.len() ==> self.lumps@[k].name@ != name@,
            decreases self.lumps@.len() - i,
        {
            if str_eq(self.lumps[i].name.as_str(), name) {
                proof {
                    lemma_find_after_hit(self.lumps@, start as int, i as int, name@);
                }
                return Some(i);
            }
            i = i + 1;
        }
        proof {
            lemma_find_after_miss(self.lumps@, start as int, name@);
        }
        None
    }

    /// Index of the first lump named `name`.
    pub fn find_lump(&self, name: &str) -> (r: Option<usize>)
        ensures
            r == spec_find_after(self.lumps@, 0, name@),
    {
        self.find_lump_after(0, name)
    }

    /// All lump names that look like map headers (`E#M#` or `MAP##`), in
    /// directory order.
    pub fn map_names(&self) -> (r: Vec<String>)
        ensures
            r@.map_values(|s: String| s@) == map_header_names(self.lumps@),
    {
        let mut out: Vec<String> = Vec::new();
        let mut i: usize = 0;
        while i < self.lumps.len()
            invariant
                i <= self.lumps@.len(),
                out@.map_values(|s: String| s@) == map_header_names(self.lumps@.take(i as int)),
            decreases self.lumps@.len() - i,
        {
            let ghost before = out@;
            assert(self.lumps@.take(i + 1).drop_last() =~= self.lumps@.take(i as int));
            if is_map_header(self.lumps[i].name.as_str()) {
                out.push(self.lumps[i].name.clone());
                assert(out@.map_values(|s: String| s@) =~= before.map_values(|s: String| s@).push(
                    self.lumps@[i as int].name@,
                ));
            }
            i = i + 1;
        }
        assert(self.lumps@.take(self.lumps@.len() as int) =~= self.lumps@);
        out
    }

    /// The outcome `load_map` is held to: the map header `name`, the first
    /// VERTEXES, LINEDEFS and THINGS lumps after it, their bytes and their
    /// decoded records.
    pub open spec fn spec_map_parts(&self, name: Seq<char>) -> Option<(Seq<Vertex>, Seq<Linedef>, Seq<Thing>)> {
        match spec_find_after(self.lumps@, 0, name) {
            None => None,
            Some(h) => match (
                spec_find_after(self.lumps@, h as int, vertexes_name()),
                spec_find_after(self.lumps@, h as int, linedefs_name()),
                spec_find_after(self.lumps@, h as int, things_name()),
            ) {
                (Some(vi), Some(li), Some(ti)) => match (
                    self.spec_lump_data(vi as int),
                    self.spec_lump_data(li as int),
                    self.spec_lump_data(ti as int),
                ) {
                    (Some(vb), Some(lb), Some(tb)) => match (
                        spec_parse_vertexes(vb),
                        spec_parse_linedefs(lb),
                        spec_parse_things(tb),
                    ) {
                        (Some(v), Some(l), Some(t)) => Some((v, l, t)),
                        _ => None,
                    },
                    _ => None,
                },
                _ => None,
            },
        }
    }

    /// The bytes `lump_bytes(idx)` returns, or `None` when it fails.
    pub open spec fn spec_lump_data(&self, idx: int) -> Option<Seq<u8>> {
        if 0 <= idx < self.lumps@.len() {
            let l = self.lumps@[idx];
            if l.size == 0 {
                Some(Seq::<u8>::empty())
            } else if l.offset + l.size <= self.data().len() {
                Some(self.data().subrange(l.offset as int, l.offset + l.size))
            } else {
                None
            }
        } else {
            None
        }
    }

    /// Fully parse the map `name`: its VERTEXES, LINEDEFS and THINGS (the
    /// first of each after the header lump) and the vertex bounding box.
    #[verifier::rlimit(30)]
    pub fn load_map(&self, name: &str) -> (r: Result<DoomMap, WadError>)
        ensures
            r is Ok <==> self.spec_map_parts(name@) is Some,
            r matches Err(e) ==> e is Format,
            r matches Ok(m) ==> {
                &&& m.name@ == name@
                &&& self.spec_map_parts(name@) == Some((m.vertexes@, m.linedefs@, m.things@))
                &&& m.bbox == spec_bbox(m.vertexes@)
            },
    {
        let header = match self.find_lump(name) {
            Some(h) => h,
            None => {
                return Err(named_error("map '", name, "' not found"));
            },
        };
        proof {
            reveal_strlit("VERTEXES");
            reveal_strlit("LINEDEFS");
            reveal_strlit("THINGS");
            assert("VERTEXES"@ =~= vertexes_name());
            assert("LINEDEFS"@ =~= linedefs_name());
            assert("THINGS"@ =~= things_name());
        }
        let vertexes_idx = match self.find_lump_after(header, "VERTEXES") {
            Some(i) => i,
            None => {
                return Err(named_error("map '", name, "': no VERTEXES lump"));
            },
        };
        let linedefs_idx = match self.find_lump_after(header, "LINEDEFS") {
            Some(i) => i,
            None => {
                return Err(named_error("map '", name, "': no LINEDEFS lump"));
            },
        };
        let things_idx = match self.find_lump_after(header, "THINGS") {
            Some(i) => i,
            None => {
                return Err(named_error("map '", name, "': no THINGS lump"));
            },
        };
        let vb = match self.lump_bytes(vertexes_idx) {
            Ok(b) => b,
            Err(e) => {
                return Err(e);
            },
        };
        let lb = match self.lump_bytes(linedefs_idx) {
            Ok(b) => b,
            Err(e) => {
                return Err(e);
            },
        };
        let tb = match self.lump_bytes(things_idx) {
            Ok(b) => b,
            Err(e) => {
                return Err(e);
            },
        };
        let vertexes = match parse_vertexes(vb) {
            Ok(v) => v,
            Err(e) => {
                return Err(e);
            },
        };
        let linedefs = match parse_linedefs(lb) {
            Ok(v) => v,
            Err(e) => {
                return Err(e);
            },
        };
        let things = match parse_things(tb) {
            Ok(v) => v,
            Err(e) => {
                return Err(e);
            },
        };
        let bbox = Bbox::from_vertexes(vertexes.as_slice());
        Ok(DoomMap { name: String::from_str(name), vertexes, linedefs, things, bbox })
    }
}

pub open spec fn vertexes_name() -> Seq<char> {
    seq!['V', 'E', 'R', 'T', 'E', 'X', 'E', 'S']
}

pub open spec fn linedefs_name() -> Seq<char> {
    seq!['L', 'I', 'N', 'E', 'D', 'E', 'F', 'S']
}

pub open spec fn things_name() -> Seq<char> {
    seq!['T', 'H', 'I', 'N', 'G', 'S']
}

/// The first index at or after `start` whose lump is named `name`.
#[verifier::opaque]
pub open spec fn spec_find_after(lumps: Seq<Lump>, start: int, name: Seq<char>) -> Option<usize> {
    if exists|i: int| start <= i < lumps.len() && 0 <= i && lumps[i].name@ == name {
        let i = choose|i: int|
            start <= i < lumps.len() && 0 <= i && lumps[i].name@ == name && (forall|k: int|
                start <= k < i && 0 <= k ==> lumps[k].name@ != name);
        Some(i as usize)
    } else {
        None
    }
}

proof fn lemma_find_after_hit(lumps: Seq<Lump>, start: int, i: int, name: Seq<char>)
    requires
        0 <= start <= i < lumps.len(),
        lumps[i].name@ == name,
        forall|k: int| start <= k < i ==> lumps[k].name@ != name,
    ensures
        spec_find_after(lumps, start, name) == Some(i as usize),
{
    reveal(spec_find_after);
    assert(start <= i < lumps.len() && 0 <= i && lumps[i].name@ == name);
    let j = choose|j: int|
        start <= j < lumps.len() && 0 <= j && lumps[j].name@ == name && (forall|k: int|
            start <= k < j && 0 <= k ==> lumps[k].name@ != name);
    assert(start <= i < lumps.len() && 0 <= i && lumps[i].name@ == name && (forall|k: int|
        start <= k < i && 0 <= k ==> lumps[k].name@ != name));
    if j < i {
        assert(lumps[j].name@ != name);
    } else if j > i {
        assert(lumps[i].name@ != name);
    }
}

proof fn lemma_find_after_miss(lumps: Seq<Lump>, start: int, name: Seq<char>)
    requires
        0 <= start,
        forall|k: int| start <= k < lumps.len() ==> lumps[k].name@ != name,
    ensures
        spec_find_after(lumps, start, name) is None,
{
    reveal(spec_find_after);
}

/// What `spec_find_after` is: the first index at or after `start` whose
/// lump has the name, or `None` when no lump from `start` on has it.
pub proof fn law_find_after(lumps: Seq<Lump>, start: int, name: Seq<char>)
    requires
        0 <= start,
        lumps.len() <= usize::MAX,
    ensures
        match spec_find_after(lumps, start, name) {
            Some(i) => start <= i < lumps.len() && lumps[i as int].name@ == name && forall|k: int|
                start <= k < i ==> lumps[k].name@ != name,
            None => forall|k: int| start <= k < lumps.len() ==> lumps[k].name@ != name,
        },
{
    reveal(spec_find_after);
    if exists|i: int| start <= i < lumps.len() && 0 <= i && lumps[i].name@ == name {
        let w = choose|i: int| start <= i < lumps.len() && 0 <= i && lumps[i].name@ == name;
        let f = first_named(lumps, start, name, w);
        lemma_find_after_hit(lumps, start, f, name);
        assert(f as usize as int == f);
    } else {
        lemma_find_after_miss(lumps, start, name);
    }
}

/// The first index from `start` up to `w` whose lump has the name.
proof fn first_named(lumps: Seq<Lump>, start: int, name: Seq<char>, w: int) -> (f: int)
    requires
        0 <= start <= w < lumps.len(),
        lumps[w].name@ == name,
    ensures
        start <= f <= w,
        lumps[f].name@ == name,
        forall|k: int| start <= k < f ==> lumps[k].name@ != name,
    decreases w - start,
{
    if lumps[start].name@ == name {
        start
    } else {
        first_named(lumps, start + 1, name, w)
    }
}

// ---------- map headers ----------

/// An ASCII decimal digit.
pub open spec fn is_digit_byte(b: u8) -> bool {
    48 <= b <= 57
}

/// `E#M#` (Doom 1) or `MAP##` (Doom 2 / Final Doom), over the name's bytes.
pub open spec fn is_map_header_bytes(b: Seq<u8>) -> bool {
    ||| (b.len() == 4 && b[0] == 69 && is_digit_byte(b[1]) && b[2] == 77 && is_digit_byte(b[3]))
    ||| (b.len() == 5 && b[0] == 77 && b[1] == 65 && b[2] == 80 && is_digit_byte(b[3])
        && is_digit_byte(b[4]))
}

/// Whether a lump name denotes a map header.
pub open spec fn spec_is_map_header(name: Seq<char>) -> bool {
    is_map_header_bytes(encode_utf8(name))
}

/// The names of the map-header lumps among `lumps`, in order.
pub open spec fn map_header_names(lumps: Seq<Lump>) -> Seq<Seq<char>>
    decreases lumps.len(),
{
    if lumps.len() == 0 {
        Seq::empty()
    } else {
        let rest = map_header_names(lumps.drop_last());
        if spec_is_map_header(lumps.last().name@) {
            rest.push(lumps.last().name@)
        } else {
            rest
        }
    }
}

/// Whether `name` looks like a map header lump: `E#M#` or `MAP##`.
pub fn is_map_header(name: &str) -> (r: bool)
    ensures
        r == spec_is_map_header(name@),
{
    let bytes = name.as_bytes();
    if bytes.len() == 4 && bytes[0] == 69u8 && 48u8 <= bytes[1] && bytes[1] <= 57u8
        && bytes[2] == 77u8 && 48u8 <= bytes[3] && bytes[3] <= 57u8 {
        return true;
    }
    if bytes.len() == 5 && bytes[0] == 77u8 && bytes[1] == 65u8 && bytes[2] == 80u8 && 48u8
        <= bytes[3] && bytes[3] <= 57u8 && 48u8 <= bytes[4] && bytes[4] <= 57u8 {
        return true;
    }
    false
}

// ---------- map data ----------

#[derive(Debug, Clone)]
pub struct DoomMap {
    pub name: String,
    pub vertexes: Vec<Vertex>,
    pub linedefs: Vec<Linedef>,
    pub things: Vec<Thing>,
    pub bbox: Bbox,
}

#[derive(Debug, Clone, Copy)]
pub struct Vertex {
    pub x: i16,
    pub y: i16,
}

#[derive(Debug, Clone, Copy)]
pub struct Linedef {
    pub v1: u16,
    pub v2: u16,
    pub flags: u16,
    pub special: u16,
    pub tag: u16,
    pub right_sidedef: u16,
    pub left_sidedef: u16,
}

impl Linedef {
    /// Two-sided linedefs sit between two sectors: they have a left
    /// sidedef (not `0xFFFF`) or carry the TWO_SIDED flag (bit 2).
    pub fn two_sided(&self) -> (r: bool)
        ensures
            r == (self.left_sidedef != 0xFFFF || (self.flags & 4) != 0),
    {
        self.left_sidedef != 0xFFFFu16 || (self.flags & 4u16) != 0
    }
}

#[derive(Debug, Clone, Copy)]
pub struct Thing {
    pub x: i16,
    pub y: i16,
    pub angle: u16,
    pub doom_type: u16,
    pub flags: u16,
}

#[derive(Debug, Clone, Copy)]
pub struct Bbox {
    pub min_x: i32,
    pub max_x: i32,
    pub min_y: i32,
    pub max_y: i32,
}

impl Default for Bbox {
    fn default() -> (b: Self)
        ensures
            b == (Bbox { min_x: 0, max_x: 0, min_y: 0, max_y: 0 }),
    {
        Bbox { min_x: 0, max_x: 0, min_y: 0, max_y: 0 }
    }
}

pub open spec fn min_i(a: int, b: int) -> int {
    if a <= b {
        a
    } else {
        b
    }
}

pub open spec fn max_i(a: int, b: int) -> int {
    if a >= b {
        a
    } else {
        b
    }
}

/// Bounding box of `vs`: all zero when empty, otherwise the extreme
/// coordinates.
pub open spec fn spec_bbox(vs: Seq<Vertex>) -> Bbox
    decreases vs.len(),
{
    if vs.len() == 0 {
        Bbox { min_x: 0, max_x: 0, min_y: 0, max_y: 0 }
    } else if vs.len() == 1 {
        Bbox { min_x: vs[0].x as i32, max_x: vs[0].x as i32, min_y: vs[0].y as i32, max_y: vs[0].y as i32 }
    } else {
        let b = spec_bbox(vs.drop_last());
        let v = vs.last();
        Bbox {
            min_x: min_i(b.min_x as int, v.x as int) as i32,
            max_x: max_i(b.max_x as int, v.x as int) as i32,
            min_y: min_i(b.min_y as int, v.y as int) as i32,
            max_y: max_i(b.max_y as int, v.y as int) as i32,
        }
    }
}

impl Bbox {
    /// Extreme coordinates of the vertexes; all zero for none.
    pub fn from_vertexes(vs: &[Vertex]) -> (b: Self)
        ensures
            b == spec_bbox(vs@),
    {
        if vs.len() == 0 {
            return Bbox { min_x: 0, max_x: 0, min_y: 0, max_y: 0 };
        }
        let mut min_x: i32 = vs[0].x as i32;
        let mut max_x: i32 = vs[0].x as i32;
        let mut min_y: i32 = vs[0].y as i32;
        let mut max_y: i32 = vs[0].y as i32;
        let mut i: usize = 1;
        assert(vs@.take(1).drop_last() =~= Seq::<Vertex>::empty());
        while i < vs.len()
            invariant
                1 <= i <= vs@.len(),
                (Bbox { min_x, max_x, min_y, max_y }) == spec_bbox(vs@.take(i as int)),
            decreases vs@.len() - i,
        {
            let v = vs[i];
            let x: i32 = v.x as i32;
            let y: i32 = v.y as i32;
            if x < min_x {
                min_x = x;
            }
            if x > max_x {
                max_x = x;
            }
            if y < min_y {
                min_y = y;
            }
            if y > max_y {
                max_y = y;
            }
            assert(vs@.take(i + 1).drop_last() =~= vs@.take(i as int));
            i = i + 1;
        }
        assert(vs@.take(vs@.len() as int) =~= vs@);
        Bbox { min_x, max_x, min_y, max_y }
    }
}

/// Every vertex lies inside the box.
pub proof fn lemma_bbox_bounds(vs: Seq<Vertex>, i: int)
    requires
        0 <= i < vs.len(),
    ensures
        spec_bbox(vs).min_x <= vs[i].x <= spec_bbox(vs).max_x,
        spec_bbox(vs).min_y <= vs[i].y <= spec_bbox(vs).max_y,
    decreases vs.len(),
{
    if vs.len() > 1 && i < vs.len() - 1 {
        lemma_bbox_bounds(vs.drop_last(), i);
        assert(vs.drop_last()[i] == vs[i]);
    }
}

/// The box is tight: each of its four bounds is the coordinate of some
/// vertex.
pub proof fn law_bbox_tight(vs: Seq<Vertex>)
    requires
        vs.len() > 0,
    ensures
        exists|i: int| 0 <= i < vs.len() && vs[i].x == spec_bbox(vs).min_x,
        exists|i: int| 0 <= i < vs.len() && vs[i].x == spec_bbox(vs).max_x,
        exists|i: int| 0 <= i < vs.len() && vs[i].y == spec_bbox(vs).min_y,
        exists|i: int| 0 <= i < vs.len() && vs[i].y == spec_bbox(vs).max_y,
    decreases vs.len(),
{
    if vs.len() == 1 {
        assert(vs[0].x == spec_bbox(vs).min_x);
        assert(vs[0].y == spec_bbox(vs).min_y);
    } else {
        let t = vs.drop_last();
        let n = vs.len() - 1;
        law_bbox_tight(t);
        let b = spec_bbox(t);
        let v = vs.last();
        assert(vs[n] == v);
        if v.x as int <= b.min_x as int {
            assert(vs[n].x == spec_bbox(vs).min_x);
        } else {
            let i = choose|i: int| 0 <= i < t.len() && t[i].x == b.min_x;
            assert(vs[i] == t[i]);
            assert(vs[i].x == spec_bbox(vs).min_x);
        }
        if v.x as int >= b.max_x as int {
            assert(vs[n].x == spec_bbox(vs).max_x);
        } else {
            let i = choose|i: int| 0 <= i < t.len() && t[i].x == b.max_x;
            assert(vs[i] == t[i]);
            assert(vs[i].x == spec_bbox(vs).max_x);
        }
        if v.y as int <= b.min_y as int {
            assert(vs[n].y == spec_bbox(vs).min_y);
        } else {
            let i = choose|i: int| 0 <= i < t.len() && t[i].y == b.min_y;
            assert(vs[i] == t[i]);
            assert(vs[i].y == spec_bbox(vs).min_y);
        }
        if v.y as int >= b.max_y as int {
            assert(vs[n].y == spec_bbox(vs).max_y);
        } else {
            let i = choose|i: int| 0 <= i < t.len() && t[i].y == b.max_y;
            assert(vs[i] == t[i]);
            assert(vs[i].y == spec_bbox(vs).max_y);
        }
    }
}

// ---------- lump parsers ----------

/// Decoded VERTEXES lump: 4-byte records of two `i16`.
pub open spec fn spec_parse_vertexes(b: Seq<u8>) -> Option<Seq<Vertex>> {
    if b.len() % 4 != 0 {
        None
    } else {
        Some(Seq::new(b.len() / 4, |i: int| Vertex { x: le_i16(b, 4 * i) as i16, y: le_i16(b, 4 * i + 2) as i16 }))
    }
}

/// Decoded LINEDEFS lump: 14-byte records of seven `u16`.
pub open spec fn spec_parse_linedefs(b: Seq<u8>) -> Option<Seq<Linedef>> {
    if b.len() % 14 != 0 {
        None
    } else {
        Some(Seq::new(b.len() / 14, |i: int| spec_linedef_at(b, 14 * i)))
    }
}

pub open spec fn spec_linedef_at(b: Seq<u8>, base: int) -> Linedef {
    Linedef {
        v1: le_u16(b, base) as u16,
        v2: le_u16(b, base + 2) as u16,
        flags: le_u16(b, base + 4) as u16,
        special: le_u16(b, base + 6) as u16,
        tag: le_u16(b, base + 8) as u16,
        right_sidedef: le_u16(b, base + 10) as u16,
        left_sidedef: le_u16(b, base + 12) as u16,
    }
}

/// Decoded THINGS lump: 10-byte records.
pub open spec fn spec_parse_things(b: Seq<u8>) -> Option<Seq<Thing>> {
    if b.len() % 10 != 0 {
        None
    } else {
        Some(Seq::new(b.len() / 10, |i: int| spec_thing_at(b, 10 * i)))
    }
}

pub open spec fn spec_thing_at(b: Seq<u8>, base: int) -> Thing {
    Thing {
        x: le_i16(b, base) as i16,
        y: le_i16(b, base + 2) as i16,
        angle: le_u16(b, base + 4) as u16,
        doom_type: le_u16(b, base + 6) as u16,
        flags: le_u16(b, base + 8) as u16,
    }
}

/// Decode a VERTEXES lump; its length must be a multiple of 4.
pub fn parse_vertexes(bytes: &[u8]) -> (r: Result<Vec<Vertex>, WadError>)
    ensures
        r is Ok <==> spec_parse_vertexes(bytes@) is Some,
        r matches Err(e) ==> e is Format,
        r matches Ok(v) ==> spec_parse_vertexes(bytes@) == Some(v@),
{
    if bytes.len() % 4 != 0 {
        let mut m = String::from_str("VERTEXES not multiple of 4: ");
        push_decimal(&mut m, bytes.len());
        m.append(" bytes");
        return Err(WadError::Format(m));
    }
    let n = bytes.len() / 4;
    let mut out: Vec<Vertex> = Vec::with_capacity(n);
    let mut i: usize = 0;
    let blen = bytes.len();
    while i < n
        invariant
            blen == bytes@.len(),
            n == bytes@.len() / 4,
            bytes@.len() % 4 == 0,
            i <= n,
            out@.len() == i,
            forall|k: int| 0 <= k < i ==> #[trigger] out@[k] == (Vertex {
                x: le_i16(bytes@, 4 * k) as i16,
                y: le_i16(bytes@, 4 * k + 2) as i16,
            }),
        decreases n - i,
    {
        let base = i * 4;
        out.push(Vertex { x: read_i16_le(bytes, base), y: read_i16_le(bytes, base + 2) });
        i = i + 1;
    }
    assert(out@ =~= spec_parse_vertexes(bytes@).unwrap());
    Ok(out)
}

/// Decode a LINEDEFS lump; its length must be a multiple of 14.
pub fn parse_linedefs(bytes: &[u8]) -> (r: Result<Vec<Linedef>, WadError>)
    ensures
        r is Ok <==> spec_parse_linedefs(bytes@) is Some,
        r matches Err(e) ==> e is Format,
        r matches Ok(v) ==> spec_parse_linedefs(bytes@) == Some(v@),
{
    if bytes.len() % 14 != 0 {
        let mut m = String::from_str("LINEDEFS not multiple of 14: ");
        push_decimal(&mut m, bytes.len());
        m.append(" bytes");
        return Err(WadError::Format(m));
    }
    let n = bytes.len() / 14;
    let mut out: Vec<Linedef> = Vec::with_capacity(n);
    let mut i: usize = 0;
    let blen = bytes.len();
    while i < n
        invariant
            blen == bytes@.len(),
            n == bytes@.len() / 14,
            bytes@.len() % 14 == 0,
            i <= n,
            out@.len() == i,
            forall|k: int| 0 <= k < i ==> #[trigger] out@[k] == spec_linedef_at(bytes@, 14 * k),
        decreases n - i,
    {
        let base = i * 14;
        out.push(
            Linedef {
                v1: read_u16_le(bytes, base),
                v2: read_u16_le(bytes, base + 2),
                flags: read_u16_le(bytes, base + 4),
                special: read_u16_le(bytes, base + 6),
                tag: read_u16_le(bytes, base + 8),
                right_sidedef: read_u16_le(bytes, base + 10),
                left_sidedef: read_u16_le(bytes, base + 12),
            },
        );
        i = i + 1;
    }
    assert(out@ =~= spec_parse_linedefs(bytes@).unwrap());
    Ok(out)
}

/// Decode a THINGS lump; its length must be a multiple of 10.
pub fn parse_things(bytes: &[u8]) -> (r: Result<Vec<Thing>, WadError>)
    ensures
        r is Ok <==> spec_parse_things(bytes@) is Some,
        r matches Err(e) ==> e is Format,
        r matches Ok(v) ==> spec_parse_things(bytes@) == Some(v@),
{
    if bytes.len() % 10 != 0 {
        let mut m = String::from_str("THINGS not multiple of 10: ");
        push_decimal(&mut m, bytes.len());
        m.append(" bytes");
        return Err(WadError::Format(m));
    }
    let n = bytes.len() / 10;
    let mut out: Vec<Thing> = Vec::with_capacity(n);
    let mut i: usize = 0;
    let blen = bytes.len();
    while i < n
        invariant
            blen == bytes@.len(),
            n == bytes@.len() / 10,
            bytes@.len() % 10 == 0,
            i <= n,
            out@.len() == i,
            forall|k: int| 0 <= k < i ==> #[trigger] out@[k] == spec_thing_at(bytes@, 10 * k),
        decreases n - i,
    {
        let base = i * 10;
        out.push(
            Thing {
                x: read_i16_le(bytes, base),
                y: read_i16_le(bytes, base + 2),
                angle: read_u16_le(bytes, base + 4),
                doom_type: read_u16_le(bytes, base + 6),
                flags: read_u16_le(bytes, base + 8),
            },
        );
        i = i + 1;
    }
    assert(out@ =~= spec_parse_things(bytes@).unwrap());
    Ok(out)
}

// ---------- thing categories ----------

/// Coarse bucket of a Doom thing type, after the standard editor
/// reference.
#[derive(Debug, Clone, Copy, PartialEq, Eq, Structural)]
pub enum ThingCategory {
    PlayerStart,
    Monster,
    Weapon,
    Ammo,
    HealthArmor,
    Key,
    Decoration,
    Other,
}

/// The bucket table.
pub open spec fn spec_classify(t: u16) -> ThingCategory {
    if (1 <= t <= 4) || t == 11 {
        ThingCategory::PlayerStart
    } else if t == 9 || t == 58 || (3001 <= t <= 3006) {
        ThingCategory::Monster
    } else if 2001 <= t <= 2006 {
        ThingCategory::Weapon
    } else if (2007 <= t <= 2010) || (2046 <= t <= 2049) {
        ThingCategory::Ammo
    } else if (2011 <= t <= 2015) || (2018 <= t <= 2019) || (2022 <= t <= 2025) {
        ThingCategory::HealthArmor
    } else if (5 <= t <= 6) || t == 13 || (38 <= t <= 40) {
        ThingCategory::Key
    } else if (14 <= t <= 15) || (25 <= t <= 37) || (41 <= t <= 63) || (70 <= t <= 89) {
        ThingCategory::Decoration
    } else {
        ThingCategory::Other
    }
}

impl ThingCategory {
    pub fn classify(doom_type: u16) -> (r: Self)
        ensures
            r == spec_classify(doom_type),
    {
        match doom_type {
            1..=4 | 11 => ThingCategory::PlayerStart,
            9 | 58 | 3001..=3006 => ThingCategory::Monster,
            2001..=2006 => ThingCategory::Weapon,
            2007..=2010 | 2046..=2049 => ThingCategory::Ammo,
            2011..=2015 | 2018..=2019 | 2022..=2025 => ThingCategory::HealthArmor,
            5..=6 | 13 | 38..=40 => ThingCategory::Key,
            14..=15 | 25..=37 | 41..=63 | 70..=89 => ThingCategory::Decoration,
            _ => ThingCategory::Other,
        }
    }
}

/// Every thing type lands in the bucket of the Doom editor reference:
/// the player starts (players 1 to 4 and the deathmatch start), the
/// monsters (former human 3004, former sergeant 9, imp 3001, demon 3002,
/// spectre 58, baron 3003, cacodemon 3005, lost soul 3006), the weapons,
/// ammunition, health and armour pick-ups, the keys and the common
/// decorations (the spectre's number, inside the decoration range, is a
/// monster); any other type is `Other`.
pub proof fn law_thing_buckets(t: u16)
    ensures
        spec_classify(t) == ThingCategory::PlayerStart <==> set![1u16, 2, 3, 4, 11].contains(t),
        spec_classify(t) == ThingCategory::Monster <==> set![3004u16, 9, 3001, 3002, 58, 3003, 3005, 3006].contains(t),
        spec_classify(t) == ThingCategory::Weapon <==> set![2001u16, 2002, 2003, 2004, 2005, 2006].contains(t),
        spec_classify(t) == ThingCategory::Ammo <==> set![2007u16, 2008, 2009, 2010, 2046, 2047, 2048, 2049].contains(t),
        spec_classify(t) == ThingCategory::HealthArmor <==> set![
            2011u16,
            2012,
            2013,
            2014,
            2015,
            2018,
            2019,
            2022,
            2023,
            2024,
            2025,
        ].contains(t),
        spec_classify(t) == ThingCategory::Key <==> set![5u16, 6, 13, 38, 39, 40].contains(t),
        spec_classify(t) == ThingCategory::Decoration <==> t != 58 && ((14 <= t <= 15) || (25 <= t <= 37) || (41
            <= t <= 63) || (70 <= t <= 89)),
{
}

} // verus!
