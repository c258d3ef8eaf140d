//! A single archive: a 12-byte header (magic, lump count, directory offset),
//! a directory of 16-byte entries, and the lump buffers they locate. The
//! reader materializes every lump up front and answers name- and
//! position-based queries.

use vstd::prelude::*;

use crate::bytes::{le32_at, read_le32};
use crate::error::{WadError, WadKind};
use crate::lump::{Lump, LumpV};
use crate::name::{chars_of_bytes, is_legal_name_bytes, read_raw_name, trim_zeros};

verus! {

/// The mathematical value of a [`WadFile`]: its path, declared kind, and
/// lump sequence in on-disk directory order.
pub ghost struct WadFileV {
    pub path: Seq<char>,
    pub kind: WadKind,
    pub lumps: Seq<LumpV>,
}

/// How many lumps of the sequence carry the given name.
pub open spec fn count_name(s: Seq<LumpV>, name: Seq<char>) -> nat
    decreases s.len(),
{
    if s.len() == 0 {
        0
    } else {
        count_name(s.drop_last(), name) + if s.last().name == name {
            1nat
        } else {
            0nat
        }
    }
}

/// The position of the lump with the given name, meaningful when the name
/// occurs exactly once.
pub open spec fn idx_of(s: Seq<LumpV>, name: Seq<char>) -> int {
    choose|i: int| 0 <= i < s.len() && s[i].name == name
}

/// A name that occurs at some position is counted at least once.
pub proof fn lemma_match_counts(s: Seq<LumpV>, name: Seq<char>, j: int)
    requires
        0 <= j < s.len(),
        s[j].name == name,
    ensures
        count_name(s, name) >= 1,
    decreases s.len(),
{
    if j == s.len() - 1 {
    } else {
        lemma_match_counts(s.drop_last(), name, j);
    }
}

/// Two distinct positions with the same name push the count to two.
pub proof fn lemma_two_matches(s: Seq<LumpV>, name: Seq<char>, j: int, k: int)
    requires
        0 <= j < k < s.len(),
        s[j].name == name,
        s[k].name == name,
    ensures
        count_name(s, name) >= 2,
    decreases s.len(),
{
    if k == s.len() - 1 {
        lemma_match_counts(s.drop_last(), name, j);
    } else {
        lemma_two_matches(s.drop_last(), name, j, k);
    }
}

/// A positive count exhibits a position carrying the name.
pub proof fn lemma_count_pos_match(s: Seq<LumpV>, name: Seq<char>)
    requires
        count_name(s, name) >= 1,
    ensures
        exists|j: int| 0 <= j < s.len() && s[j].name == name,
    decreases s.len(),
{
    if s.last().name == name {
    } else {
        lemma_count_pos_match(s.drop_last(), name);
        let j = choose|j: int| 0 <= j < s.drop_last().len() && s.drop_last()[j].name == name;
        assert(s[j].name == name);
    }
}

/// When a name is unique, [`idx_of`] is its one position: it is in range,
/// it carries the name, and every position carrying the name equals it.
pub proof fn lemma_unique_idx(s: Seq<LumpV>, name: Seq<char>)
    requires
        count_name(s, name) == 1,
    ensures
        0 <= idx_of(s, name) < s.len(),
        s[idx_of(s, name)].name == name,
        forall|j: int| 0 <= j < s.len() && (#[trigger] s[j]).name == name ==> j == idx_of(s, name),
{
    lemma_count_pos_match(s, name);
    let i = idx_of(s, name);
    assert(0 <= i < s.len() && s[i].name == name);
    assert forall|j: int| 0 <= j < s.len() && (#[trigger] s[j]).name == name implies j == i by {
        if j < i {
            lemma_two_matches(s, name, j, i);
        } else if i < j {
            lemma_two_matches(s, name, i, j);
        }
    }
}

/// Law: a name that is unique in the directory is retrieved by
/// unique-lookup exactly at its one position — the lump that
/// [`WadFile::lump`] and [`WadFile::try_lump`] promise, `s[idx_of]`, is
/// the lump at every position that carries the name.
pub proof fn lemma_unique_lookup(s: Seq<LumpV>, name: Seq<char>, j: int)
    requires
        0 <= j < s.len(),
        s[j].name == name,
        count_name(s, name) == 1,
    ensures
        idx_of(s, name) == j,
        s[idx_of(s, name)] == s[j],
{
    lemma_unique_idx(s, name);
}

/// Law: a lump of any name — unique or duplicated — still lies in the
/// slice of every between-markers block that spans its position, so a
/// name that fails unique-lookup for ambiguity remains retrievable
/// positionally.
pub proof fn lemma_block_contains(s: Seq<LumpV>, start: Seq<char>, end: Seq<char>, j: int)
    requires
        count_name(s, start) == 1,
        count_name(s, end) == 1,
        idx_of(s, start) <= j <= idx_of(s, end),
    ensures
        s.subrange(idx_of(s, start), idx_of(s, end) + 1).contains(s[j]),
{
    lemma_unique_idx(s, start);
    lemma_unique_idx(s, end);
    let a = idx_of(s, start);
    let b = idx_of(s, end);
    assert(s.subrange(a, b + 1)[j - a] == s[j]);
}

/// Whether a between-markers query can succeed: both markers unique, the
/// start marker not after the end marker.
pub open spec fn between_valid(s: Seq<LumpV>, start: Seq<char>, end: Seq<char>) -> bool {
    count_name(s, start) == 1 && count_name(s, end) == 1 && idx_of(s, start) <= idx_of(s, end)
}

/// Law: validity of a between-markers query is anti-symmetric. When a
/// query `(start, end)` is valid with `start` strictly before `end` in
/// the directory, the swapped query `(end, start)` is invalid, so
/// [`WadFile::try_lumps_between`] promises it an error — never a reversed
/// or empty slice.
pub proof fn lemma_between_antisymmetric(s: Seq<LumpV>, start: Seq<char>, end: Seq<char>)
    requires
        between_valid(s, start, end),
        idx_of(s, start) < idx_of(s, end),
    ensures
        !between_valid(s, end, start),
{
}

/// The archive kind declared by the four magic bytes: `IWAD` or `PWAD`.
pub open spec fn magic_kind(d: Seq<u8>) -> Option<WadKind> {
    if d.len() >= 4 && d[0] == 73 && d[1] == 87 && d[2] == 65 && d[3] == 68 {
        Some(WadKind::Iwad)
    } else if d.len() >= 4 && d[0] == 80 && d[1] == 87 && d[2] == 65 && d[3] == 68 {
        Some(WadKind::Pwad)
    } else {
        None
    }
}

/// One directory entry, 16 bytes at `base`: a data offset, a size, and an
/// 8-byte zero-padded name. Yields the lump it locates, or nothing when the
/// name is illegal or the data runs past the end of the file.
pub open spec fn parse_entry(d: Seq<u8>, path: Seq<char>, base: int) -> Option<LumpV> {
    let off = le32_at(d, base) as int;
    let size = le32_at(d, base + 4) as int;
    let nm = trim_zeros(d.subrange(base + 8, base + 16));
    if !is_legal_name_bytes(nm) {
        None
    } else if size == 0 {
        Some(LumpV { name: chars_of_bytes(nm), data: Seq::empty(), path })
    } else if off + size <= d.len() {
        Some(LumpV { name: chars_of_bytes(nm), data: d.subrange(off, off + size), path })
    } else {
        None
    }
}

/// Whether the declared directory lies inside the file.
pub open spec fn directory_ok(d: Seq<u8>) -> bool {
    d.len() >= 12 && le32_at(d, 8) + 16 * le32_at(d, 4) <= d.len()
}

/// Every lump of the archive, in directory order; nothing when the
/// directory runs past the end of the file or any entry is bad.
pub open spec fn parse_lumps(d: Seq<u8>, path: Seq<char>) -> Option<Seq<LumpV>> {
    let count = le32_at(d, 4) as int;
    let dir = le32_at(d, 8) as int;
    if !directory_ok(d) {
        None
    } else if forall|i: int| 0 <= i < count ==> #[trigger] parse_entry(d, path, dir + 16 * i) is Some {
        Some(Seq::new(count as nat, |i: int| parse_entry(d, path, dir + 16 * i)->Some_0))
    } else {
        None
    }
}

/// The meaning of a whole archive file: its kind and its lumps, or nothing
/// when any part of it is malformed.
pub open spec fn parse_wad(path: Seq<char>, d: Seq<u8>) -> Option<(WadKind, Seq<LumpV>)> {
    match magic_kind(d) {
        None => None,
        Some(kind) => match parse_lumps(d, path) {
            None => None,
            Some(lumps) => Some((kind, lumps)),
        },
    }
}

/// One archive read into memory: its path, declared kind, and every lump in
/// directory order. Later duplicate names do not displace earlier ones;
/// uniqueness is enforced per query.
#[derive(Debug)]
pub struct WadFile {
    path: String,
    kind: WadKind,
    lumps: Vec<Lump>,
}

impl View for WadFile {
    type V = WadFileV;

    closed spec fn view(&self) -> WadFileV {
        WadFileV { path: self.path@, kind: self.kind, lumps: self.lumps.deep_view() }
    }
}

impl DeepView for WadFile {
    type V = WadFileV;

    open spec fn deep_view(&self) -> WadFileV {
        self@
    }
}

impl WadFile {
    /// Reads an archive from the bytes of the file at `path`. The header,
    /// the directory and every lump buffer are parsed eagerly; the first
    /// structural violation fails the whole archive.
    pub fn open(path: &str, bytes: &[u8]) -> (r: Result<WadFile, WadError>)
        ensures
            match r {
                Ok(f) => parse_wad(path@, bytes@) == Some((f@.kind, f@.lumps)) && f@.path
                    == path@,
                Err(e) => parse_wad(path@, bytes@) is None && (e matches WadError::Malformed {
                    path: p,
                    ..
                } && p@ == path@),
            },
    {
        let kind = if bytes.len() >= 4 && bytes[0] == 73 && bytes[1] == 87 && bytes[2] == 65
            && bytes[3] == 68 {
            WadKind::Iwad
        } else if bytes.len() >= 4 && bytes[0] == 80 && bytes[1] == 87 && bytes[2] == 65
            && bytes[3] == 68 {
            WadKind::Pwad
        } else {
            return Err(WadError::malformed(path, "not a WAD file"));
        };
        if bytes.len() < 12 {
            return Err(WadError::malformed(path, "truncated header"));
        }
        let count32 = read_le32(bytes, 4);
        let dir32 = read_le32(bytes, 8);
        if (dir32 as u64) + 16u64 * (count32 as u64) > bytes.len() as u64 {
            return Err(WadError::malformed(path, "directory outside of file"));
        }
        let count = count32 as usize;
        let dir = dir32 as usize;
        let ghost d = bytes@;
        let ghost pv = path@;
        // The count is untrusted: clamp the initial reservation so a tiny
        // file claiming a huge directory cannot force a huge allocation.
        let mut lumps: Vec<Lump> = Vec::with_capacity(
            if count < 4096 {
                count
            } else {
                4096
            },
        );
        let mut i: usize = 0;
        while i < count
            invariant
                count == le32_at(d, 4),
                dir == le32_at(d, 8),
                directory_ok(d),
                magic_kind(d) == Some(kind),
                d == bytes@,
                pv == path@,
                dir + 16 * count <= d.len(),
                d.len() <= usize::MAX,
                i <= count,
                lumps.deep_view().len() == i,
                forall|j: int|
                    0 <= j < i ==> parse_entry(d, pv, dir + 16 * j) == Some(
                        #[trigger] lumps.deep_view()[j],
                    ),
            decreases count - i,
        {
            proof {
                assert(16 * i + 16 <= 16 * count);
            }
            let base = dir + 16 * i;
            let off32 = read_le32(bytes, base);
            let size32 = read_le32(bytes, base + 4);
            let raw = vstd::slice::slice_subrange(bytes, base + 8, base + 16);
            let name = match read_raw_name(raw) {
                Some(n) => n,
                None => {
                    let mut desc = String::new();
                    desc.append("illegal lump name ");
                    desc.append(crate::name::describe_bytes(raw).as_str());
                    return Err(WadError::Malformed { path: path.to_owned(), desc });
                },
            };
            let data: Vec<u8> = if size32 == 0 {
                Vec::new()
            } else {
                if (off32 as u64) + (size32 as u64) > bytes.len() as u64 {
                    let mut desc = name;
                    desc.append(" outside of file");
                    return Err(WadError::Malformed { path: path.to_owned(), desc });
                }
                let off = off32 as usize;
                let size = size32 as usize;
                vstd::slice::slice_to_vec(vstd::slice::slice_subrange(bytes, off, off + size))
            };
            let lump = Lump::new(path.to_owned(), name, data);
            let ghost prev = lumps.deep_view();
            let ghost lv = lump@;
            proof {
                assert(parse_entry(d, pv, dir + 16 * i as int) == Some(lv));
            }
            lumps.push(lump);
            proof {
                assert(lumps.deep_view() =~= prev.push(lv));
            }
            i = i + 1;
        }
        proof {
            let entries = Seq::new(count as nat, |j: int| parse_entry(d, pv, dir + 16 * j)->Some_0);
            assert forall|j: int| 0 <= j < count implies (#[trigger] parse_entry(
                d,
                pv,
                dir + 16 * j,
            )) is Some by {
                assert(parse_entry(d, pv, dir + 16 * j) == Some(lumps.deep_view()[j]));
            }
            assert(lumps.deep_view() =~= entries);
            assert(parse_lumps(d, pv) == Some(entries));
        }
        Ok(WadFile { path: path.to_owned(), kind, lumps })
    }

    /// The path the archive was read from.
    pub fn path(&self) -> (r: &str)
        ensures
            r@ == self@.path,
    {
        self.path.as_str()
    }

    /// The archive's declared kind.
    pub fn kind(&self) -> (r: WadKind)
        ensures
            r == self@.kind,
    {
        self.kind
    }

    /// Checks that the archive is of the expected kind, handing it back
    /// unchanged when it is.
    pub fn expect(self, expected: WadKind) -> (r: Result<WadFile, WadError>)
        ensures
            match r {
                Ok(f) => self@.kind == expected && f == self,
                Err(e) => self@.kind != expected && (e matches WadError::WrongType {
                    path: p,
                    expected: x,
                } && p@ == self@.path && x == expected),
            },
    {
        if self.kind == expected {
            Ok(self)
        } else {
            Err(WadError::WrongType { path: self.path.clone(), expected })
        }
    }

    /// Builds a [`WadError::Malformed`] blaming this archive.
    pub fn error(&self, desc: &str) -> (r: WadError)
        ensures
            r matches WadError::Malformed { path: p, desc: d } && p@ == self@.path && d@
                == desc@,
    {
        WadError::malformed(self.path.as_str(), desc)
    }

    /// Finds the position of a uniquely named lump: its index when the name
    /// occurs once, nothing when it is absent, an error when it is
    /// ambiguous.
    fn try_lump_index(&self, name: &str) -> (r: Result<Option<usize>, WadError>)
        ensures
            ({
                let s = self@.lumps;
                let c = count_name(s, name@);
                match r {
                    Ok(None) => c == 0,
                    Ok(Some(i)) => c == 1 && 0 <= i < s.len() && s[i as int].name == name@,
                    Err(e) => c >= 2 && (e matches WadError::Malformed { path: p, .. } && p@
                        == self@.path),
                }
            }),
    {
        let key: String = name.to_owned();
        let n = self.lumps.len();
        let mut found: Option<usize> = None;
        let mut cnt: usize = 0;
        let mut i: usize = 0;
        while i < n
            invariant
                n == self@.lumps.len(),
                i <= n,
                key@ == name@,
                cnt == count_name(self@.lumps.take(i as int), name@),
                cnt <= i,
                match found {
                    None => cnt == 0,
                    Some(j) => cnt >= 1 && j < i && self@.lumps[j as int].name == name@,
                },
            decreases n - i,
        {
            if self.lumps[i].name == key {
                cnt = cnt + 1;
                if found.is_none() {
                    found = Some(i);
                }
            }
            proof {
                assert(self@.lumps.take(i + 1 as int).drop_last() =~= self@.lumps.take(i as int));
                assert(self@.lumps.take(i + 1 as int).last() == self@.lumps[i as int]);
            }
            i = i + 1;
        }
        proof {
            assert(self@.lumps.take(n as int) =~= self@.lumps);
        }
        if cnt == 0 {
            Ok(None)
        } else if cnt == 1 {
            Ok(found)
        } else {
            let mut desc = key;
            desc.append(" found more than once");
            Err(WadError::Malformed { path: self.path.clone(), desc })
        }
    }

    /// Retrieves a uniquely named lump; absence is an error.
    pub fn lump(&self, name: &str) -> (r: Result<&Lump, WadError>)
        ensures
            ({
                let s = self@.lumps;
                let c = count_name(s, name@);
                match r {
                    Ok(l) => c == 1 && l@ == s[idx_of(s, name@)],
                    Err(e) => c != 1 && (e matches WadError::Malformed { path: p, .. } && p@
                        == self@.path),
                }
            }),
    {
        match self.try_lump(name) {
            Ok(Some(l)) => Ok(l),
            Ok(None) => {
                let mut desc = name.to_owned();
                desc.append(" missing");
                Err(WadError::Malformed { path: self.path.clone(), desc })
            },
            Err(e) => Err(e),
        }
    }

    /// Retrieves a uniquely named lump; absence yields `Ok(None)`, an
    /// ambiguous name an error.
    pub fn try_lump(&self, name: &str) -> (r: Result<Option<&Lump>, WadError>)
        ensures
            ({
                let s = self@.lumps;
                let c = count_name(s, name@);
                match r {
                    Ok(None) => c == 0,
                    Ok(Some(l)) => c == 1 && l@ == s[idx_of(s, name@)],
                    Err(e) => c >= 2 && (e matches WadError::Malformed { path: p, .. } && p@
                        == self@.path),
                }
            }),
    {
        let index = match self.try_lump_index(name) {
            Ok(ix) => ix,
            Err(e) => {
                return Err(e);
            },
        };
        match index {
            None => Ok(None),
            Some(i) => {
                proof {
                    lemma_unique_idx(self@.lumps, name@);
                }
                Ok(Some(&self.lumps[i]))
            },
        }
    }

    /// Retrieves the block of a unique marker lump plus the `n` lumps that
    /// follow it, as one contiguous slice; a missing block is an error.
    pub fn lumps_following(&self, start: &str, n: usize) -> (r: Result<&[Lump], WadError>)
        requires
            n >= 1,
        ensures
            ({
                let s = self@.lumps;
                let c = count_name(s, start@);
                let i = idx_of(s, start@);
                match r {
                    Ok(sl) => c == 1 && i + n + 1 < s.len() && sl.deep_view() == s.subrange(
                        i,
                        i + n + 1,
                    ),
                    Err(e) => (c != 1 || i + n + 1 >= s.len()) && (e
                        matches WadError::Malformed { path: p, .. } && p@ == self@.path),
                }
            }),
    {
        match self.try_lumps_following(start, n) {
            Ok(Some(sl)) => Ok(sl),
            Ok(None) => {
                let mut desc = start.to_owned();
                desc.append(" missing");
                Err(WadError::Malformed { path: self.path.clone(), desc })
            },
            Err(e) => Err(e),
        }
    }

    /// Retrieves the block of a unique marker lump plus the `n` lumps that
    /// follow it; an absent marker yields `Ok(None)`. The archive must hold
    /// more than `n` lumps after the marker.
    pub fn try_lumps_following(&self, start: &str, n: usize) -> (r: Result<
        Option<&[Lump]>,
        WadError,
    >)
        requires
            n >= 1,
        ensures
            ({
                let s = self@.lumps;
                let c = count_name(s, start@);
                let i = idx_of(s, start@);
                match r {
                    Ok(None) => c == 0,
                    Ok(Some(sl)) => c == 1 && i + n + 1 < s.len() && sl.deep_view()
                        == s.subrange(i, i + n + 1),
                    Err(e) => (c >= 2 || (c == 1 && i + n + 1 >= s.len())) && (e
                        matches WadError::Malformed { path: p, .. } && p@ == self@.path),
                }
            }),
    {
        let index = match self.try_lump_index(start) {
            Ok(ix) => ix,
            Err(e) => {
                return Err(e);
            },
        };
        let i = match index {
            None => {
                return Ok(None);
            },
            Some(i) => i,
        };
        proof {
            lemma_unique_idx(self@.lumps, start@);
        }
        if n >= self.lumps.len() - i - 1 {
            let mut desc = start.to_owned();
            desc.append(" missing lumps");
            return Err(WadError::Malformed { path: self.path.clone(), desc });
        }
        let sl = vstd::slice::slice_subrange(self.lumps.as_slice(), i, i + n + 1);
        proof {
            assert(sl.deep_view() =~= self@.lumps.subrange(i as int, i + n + 1));
        }
        Ok(Some(sl))
    }

    /// Retrieves the block of lumps from a unique start marker to a unique
    /// end marker inclusive; a missing block is an error.
    pub fn lumps_between(&self, start: &str, end: &str) -> (r: Result<&[Lump], WadError>)
        ensures
            ({
                let s = self@.lumps;
                let cs = count_name(s, start@);
                let ce = count_name(s, end@);
                let a = idx_of(s, start@);
                let b = idx_of(s, end@);
                match r {
                    Ok(sl) => between_valid(s, start@, end@) && sl.deep_view() == s.subrange(
                        a,
                        b + 1,
                    ),
                    Err(e) => !between_valid(s, start@, end@) && (e
                        matches WadError::Malformed { path: p, .. } && p@ == self@.path),
                }
            }),
    {
        match self.try_lumps_between(start, end) {
            Ok(Some(sl)) => Ok(sl),
            Ok(None) => {
                let mut desc = start.to_owned();
                desc.append(" and ");
                desc.append(end);
                desc.append(" missing");
                Err(WadError::Malformed { path: self.path.clone(), desc })
            },
            Err(e) => Err(e),
        }
    }

    /// Retrieves the block of lumps from a unique start marker to a unique
    /// end marker inclusive; both markers absent yields `Ok(None)`, one
    /// absent or misordered markers an error.
    pub fn try_lumps_between(&self, start: &str, end: &str) -> (r: Result<
        Option<&[Lump]>,
        WadError,
    >)
        ensures
            ({
                let s = self@.lumps;
                let cs = count_name(s, start@);
                let ce = count_name(s, end@);
                let a = idx_of(s, start@);
                let b = idx_of(s, end@);
                match r {
                    Ok(None) => cs == 0 && ce == 0,
                    Ok(Some(sl)) => between_valid(s, start@, end@) && sl.deep_view()
                        == s.subrange(a, b + 1),
                    Err(e) => !between_valid(s, start@, end@) && !(cs == 0 && ce == 0) && (e
                        matches WadError::Malformed { path: p, .. } && p@ == self@.path),
                }
            }),
    {
        let start_index = match self.try_lump_index(start) {
            Ok(ix) => ix,
            Err(e) => {
                return Err(e);
            },
        };
        let end_index = match self.try_lump_index(end) {
            Ok(ix) => ix,
            Err(e) => {
                return Err(e);
            },
        };
        let (a, b) = match (start_index, end_index) {
            (Some(a), Some(b)) => (a, b),
            (None, None) => {
                return Ok(None);
            },
            (Some(_), None) => {
                let mut desc = start.to_owned();
                desc.append(" without ");
                desc.append(end);
                return Err(WadError::Malformed { path: self.path.clone(), desc });
            },
            (None, Some(_)) => {
                let mut desc = end.to_owned();
                desc.append(" without ");
                desc.append(start);
                return Err(WadError::Malformed { path: self.path.clone(), desc });
            },
        };
        proof {
            lemma_unique_idx(self@.lumps, start@);
            lemma_unique_idx(self@.lumps, end@);
        }
        if a > b {
            let mut desc = start.to_owned();
            desc.append(" after ");
            desc.append(end);
            return Err(WadError::Malformed { path: self.path.clone(), desc });
        }
        let len = self.lumps.len();
        proof {
            assert(b + 1 <= len);
        }
        let sl = vstd::slice::slice_subrange(self.lumps.as_slice(), a, b + 1);
        proof {
            assert(sl.deep_view() =~= self@.lumps.subrange(a as int, b + 1));
        }
        Ok(Some(sl))
    }
}

} // verus!
