//! A stack of archives layered on top of each other, with later archives
//! shadowing earlier ones. A lump lookup takes the first archive, scanning
//! from the most recently added, that holds the name uniquely; a block query
//! is resolved whole within a single archive — interior lumps are never
//! merged across archives.

use vstd::prelude::*;

use crate::archive::{count_name, idx_of, parse_wad, WadFile, WadFileV};
use crate::error::{WadError, WadKind};
use crate::lump::{Lump, LumpV};

verus! {

/// The lump a single archive contributes for a name: its unique lump of
/// that name, or nothing when the name is absent or ambiguous there.
pub open spec fn file_lump(f: WadFileV, name: Seq<char>) -> Option<LumpV> {
    if count_name(f.lumps, name) == 1 {
        Some(f.lumps[idx_of(f.lumps, name)])
    } else {
        None
    }
}

/// The block of `n` lumps following the unique marker `start` in a single
/// archive, marker excluded; nothing when the marker is absent or ambiguous
/// or fewer than `n + 1` lumps follow it.
pub open spec fn file_following(f: WadFileV, start: Seq<char>, n: int) -> Option<Seq<LumpV>> {
    let i = idx_of(f.lumps, start);
    if count_name(f.lumps, start) == 1 && i + n + 1 < f.lumps.len() {
        Some(f.lumps.subrange(i + 1, i + n + 1))
    } else {
        None
    }
}

/// The block of lumps strictly between the unique markers `start` and `end`
/// in a single archive; nothing when either marker is absent or ambiguous
/// or `start` comes after `end`.
pub open spec fn file_between(f: WadFileV, start: Seq<char>, end: Seq<char>) -> Option<
    Seq<LumpV>,
> {
    let a = idx_of(f.lumps, start);
    let b = idx_of(f.lumps, end);
    if count_name(f.lumps, start) == 1 && count_name(f.lumps, end) == 1 && a <= b {
        Some(
            if a < b {
                f.lumps.subrange(a + 1, b)
            } else {
                Seq::empty()
            },
        )
    } else {
        None
    }
}

/// The lump a stack of archives yields for a name: the contribution of the
/// last archive that has one.
pub open spec fn stack_lump(ws: Seq<WadFileV>, name: Seq<char>) -> Option<LumpV>
    decreases ws.len(),
{
    if ws.len() == 0 {
        None
    } else {
        match file_lump(ws.last(), name) {
            Some(l) => Some(l),
            None => stack_lump(ws.drop_last(), name),
        }
    }
}

/// The following-block a stack yields: the whole block from the last
/// archive that can satisfy it.
pub open spec fn stack_following(ws: Seq<WadFileV>, start: Seq<char>, n: int) -> Option<
    Seq<LumpV>,
>
    decreases ws.len(),
{
    if ws.len() == 0 {
        None
    } else {
        match file_following(ws.last(), start, n) {
            Some(b) => Some(b),
            None => stack_following(ws.drop_last(), start, n),
        }
    }
}

/// The between-block a stack yields: the whole block from the last archive
/// that can satisfy it.
pub open spec fn stack_between(ws: Seq<WadFileV>, start: Seq<char>, end: Seq<char>) -> Option<
    Seq<LumpV>,
>
    decreases ws.len(),
{
    if ws.len() == 0 {
        None
    } else {
        match file_between(ws.last(), start, end) {
            Some(b) => Some(b),
            None => stack_between(ws.drop_last(), start, end),
        }
    }
}

/// A satisfied following-block query always yields exactly `n` lumps.
pub proof fn lemma_stack_following_len(ws: Seq<WadFileV>, start: Seq<char>, n: int)
    requires
        n >= 1,
        stack_following(ws, start, n) is Some,
    ensures
        stack_following(ws, start, n)->Some_0.len() == n,
    decreases ws.len(),
{
    if ws.len() > 0 {
        match file_following(ws.last(), start, n) {
            Some(b) => {
                crate::archive::lemma_unique_idx(ws.last().lumps, start);
            },
            None => {
                lemma_stack_following_len(ws.drop_last(), start, n);
            },
        }
    }
}

/// Law: overlay precedence for a two-archive stack `[a, b]`, `b` added
/// after `a`. When `b` holds the name uniquely its lump wins; when `b`
/// lacks the name (or holds it ambiguously), `a`'s contribution becomes
/// visible again.
pub proof fn lemma_overlay_precedence(a: WadFileV, b: WadFileV, name: Seq<char>)
    ensures
        file_lump(b, name) is Some ==> stack_lump(seq![a, b], name) == file_lump(b, name),
        file_lump(b, name) is None ==> stack_lump(seq![a, b], name) == file_lump(a, name),
{
    let ws = seq![a, b];
    assert(ws.last() == b);
    assert(ws.drop_last() =~= seq![a]);
    assert(seq![a].last() == a);
    assert(seq![a].drop_last() =~= Seq::<WadFileV>::empty());
    assert(stack_lump(Seq::<WadFileV>::empty(), name) is None);
    assert(stack_lump(seq![a], name) == (match file_lump(a, name) {
        Some(l) => Some(l),
        None => stack_lump(Seq::<WadFileV>::empty(), name),
    }));
    assert(stack_lump(ws, name) == (match file_lump(b, name) {
        Some(l) => Some(l),
        None => stack_lump(seq![a], name),
    }));
}

/// Law: whole-block resolution never merges archives. For a two-archive
/// stack `[a, b]`, a following-block query is answered entirely by `b`
/// whenever `b` can satisfy it — every interior lump, whatever `a` holds
/// under the same marker — and entirely by `a` only when `b` cannot.
pub proof fn lemma_block_non_merging(a: WadFileV, b: WadFileV, start: Seq<char>, n: int)
    ensures
        file_following(b, start, n) is Some ==> stack_following(seq![a, b], start, n)
            == file_following(b, start, n),
        file_following(b, start, n) is None ==> stack_following(seq![a, b], start, n)
            == file_following(a, start, n),
{
    let ws = seq![a, b];
    assert(ws.last() == b);
    assert(ws.drop_last() =~= seq![a]);
    assert(seq![a].last() == a);
    assert(seq![a].drop_last() =~= Seq::<WadFileV>::empty());
    assert(stack_following(Seq::<WadFileV>::empty(), start, n) is None);
    assert(stack_following(seq![a], start, n) == (match file_following(a, start, n) {
        Some(bk) => Some(bk),
        None => stack_following(Seq::<WadFileV>::empty(), start, n),
    }));
    assert(stack_following(ws, start, n) == (match file_following(b, start, n) {
        Some(bk) => Some(bk),
        None => stack_following(seq![a], start, n),
    }));
}

/// Law: every satisfied lookup on a stack is answered by a single
/// archive: the last one whose own contribution is defined, with every
/// archive above it contributing nothing.
pub proof fn lemma_stack_lump_single_source(ws: Seq<WadFileV>, name: Seq<char>)
    ensures
        stack_lump(ws, name) is None <==> (forall|v: int|
            0 <= v < ws.len() ==> #[trigger] file_lump(ws[v], name) is None),
        stack_lump(ws, name) is Some ==> exists|w: int|
            0 <= w < ws.len() && stack_lump(ws, name) == #[trigger] file_lump(ws[w], name) && (
            forall|v: int| w < v < ws.len() ==> #[trigger] file_lump(ws[v], name) is None),
    decreases ws.len(),
{
    if ws.len() > 0 {
        lemma_stack_lump_single_source(ws.drop_last(), name);
        assert(forall|v: int|
            0 <= v < ws.len() - 1 ==> ws.drop_last()[v] == #[trigger] ws[v]);
        match file_lump(ws.last(), name) {
            Some(l) => {
                let w = ws.len() - 1;
                assert(stack_lump(ws, name) == file_lump(ws[w], name));
            },
            None => {
                if stack_lump(ws, name) is Some {
                    let w0 = choose|w: int|
                        0 <= w < ws.drop_last().len() && stack_lump(ws.drop_last(), name)
                            == #[trigger] file_lump(ws.drop_last()[w], name) && (forall|v: int|
                            w < v < ws.drop_last().len() ==> #[trigger] file_lump(
                                ws.drop_last()[v],
                                name,
                            ) is None);
                    assert(stack_lump(ws, name) == file_lump(ws[w0], name));
                    assert(forall|v: int|
                        w0 < v < ws.len() ==> #[trigger] file_lump(ws[v], name) is None);
                }
            },
        }
    }
}

/// A generic archive source handed to [`WadStack::add`]: a single archive,
/// or a whole stack whose archives are spliced in, in order.
pub enum WadSource {
    /// One archive.
    File(WadFile),
    /// A whole stack of archives.
    Stack(WadStack),
}

/// The archives a source contributes, in order.
pub open spec fn source_files(src: &WadSource) -> Seq<WadFileV> {
    match src {
        WadSource::File(f) => seq![f@],
        WadSource::Stack(st) => st@,
    }
}

/// An ordered stack of archives; queries scan it from the most recently
/// added archive to the first.
pub struct WadStack {
    wads: Vec<WadFile>,
}

impl View for WadStack {
    type V = Seq<WadFileV>;

    closed spec fn view(&self) -> Seq<WadFileV> {
        self.wads.deep_view()
    }
}

impl WadStack {
    /// Creates an empty stack. Use this to bypass the primary/patch kind
    /// checking that [`WadStack::iwad`] and [`WadStack::add_pwad`] enforce.
    pub fn new() -> (r: WadStack)
        ensures
            r@ == Seq::<WadFileV>::empty(),
    {
        let st = WadStack { wads: Vec::new() };
        proof {
            assert(st@ =~= Seq::<WadFileV>::empty());
        }
        st
    }

    /// Adds a generic source to the stack without kind checking: one
    /// archive, or every archive of another stack, in order.
    pub fn add(&mut self, src: WadSource)
        ensures
            final(self)@ == old(self)@ + source_files(&src),
    {
        let ghost old_view = self@;
        let ghost sv = source_files(&src);
        match src {
            WadSource::File(f) => {
                self.wads.push(f);
                proof {
                    assert(self@ =~= old_view + sv);
                }
            },
            WadSource::Stack(st) => {
                let mut rest = st.wads;
                let ghost rv = rest.deep_view();
                let mut i: usize = 0;
                let n = rest.len();
                while i < n
                    invariant
                        n == rv.len(),
                        i <= n,
                        rest.deep_view() == rv.skip(i as int),
                        self@ == old_view + rv.take(i as int),
                    decreases n - i,
                {
                    let ghost before = self@;
                    let ghost rest_before = rest.deep_view();
                    proof {
                        assert(rest@.len() == rest.deep_view().len());
                        assert(rest.deep_view().len() == rv.len() - i);
                    }
                    let f = rest.remove(0);
                    proof {
                        assert(f@ == rest_before[0]);
                        assert(rest.deep_view() =~= rest_before.remove(0));
                        assert(rest_before.remove(0) =~= rv.skip(i + 1 as int));
                    }
                    self.wads.push(f);
                    proof {
                        assert(self@ =~= before.push(rv[i as int]));
                        assert(old_view + rv.take(i + 1 as int) =~= (old_view + rv.take(
                            i as int,
                        )).push(rv[i as int]));
                    }
                    i = i + 1;
                }
                proof {
                    assert(rv.take(n as int) =~= rv);
                    assert(self@ == old_view + sv);
                }
            },
        }
    }

    /// Starts a stack with a primary archive read from the bytes of the
    /// file at `path`; an archive of patch kind is refused.
    pub fn iwad(path: &str, bytes: &[u8]) -> (r: Result<WadStack, WadError>)
        ensures
            match r {
                Ok(st) => (parse_wad(path@, bytes@) matches Some((k, lumps)) && k
                    == WadKind::Iwad && st@ == seq![
                    WadFileV { path: path@, kind: k, lumps },
                ]),
                Err(e) => match parse_wad(path@, bytes@) {
                    None => e matches WadError::Malformed { path: p, .. } && p@ == path@,
                    Some((k, _)) => k == WadKind::Pwad && (e matches WadError::WrongType {
                        path: p,
                        expected: x,
                    } && p@ == path@ && x == WadKind::Iwad),
                },
            },
    {
        let f = WadFile::open(path, bytes)?;
        let f = f.expect(WadKind::Iwad)?;
        let mut st = WadStack::new();
        st.add(WadSource::File(f));
        proof {
            assert(st@ =~= seq![f@]);
        }
        Ok(st)
    }

    /// Adds a patch archive, read from the bytes of the file at `path`, on
    /// top of the stack; an archive of primary kind is refused.
    pub fn add_pwad(&mut self, path: &str, bytes: &[u8]) -> (r: Result<(), WadError>)
        ensures
            match r {
                Ok(()) => (parse_wad(path@, bytes@) matches Some((k, lumps)) && k
                    == WadKind::Pwad && final(self)@ == old(self)@.push(
                    WadFileV { path: path@, kind: k, lumps },
                )),
                Err(e) => final(self)@ == old(self)@ && match parse_wad(path@, bytes@) {
                    None => e matches WadError::Malformed { path: p, .. } && p@ == path@,
                    Some((k, _)) => k == WadKind::Iwad && (e matches WadError::WrongType {
                        path: p,
                        expected: x,
                    } && p@ == path@ && x == WadKind::Pwad),
                },
            },
    {
        let f = WadFile::open(path, bytes)?;
        let f = f.expect(WadKind::Pwad)?;
        self.add(WadSource::File(f));
        proof {
            assert(self@ =~= old(self)@.push(f@));
        }
        Ok(())
    }

    /// Adds a patch archive on top of the stack and hands the stack back.
    pub fn pwad(self, path: &str, bytes: &[u8]) -> (r: Result<WadStack, WadError>)
        ensures
            match r {
                Ok(st) => (parse_wad(path@, bytes@) matches Some((k, lumps)) && k
                    == WadKind::Pwad && st@ == self@.push(
                    WadFileV { path: path@, kind: k, lumps },
                )),
                Err(e) => match parse_wad(path@, bytes@) {
                    None => e matches WadError::Malformed { path: p, .. } && p@ == path@,
                    Some((k, _)) => k == WadKind::Iwad && (e matches WadError::WrongType {
                        path: p,
                        expected: x,
                    } && p@ == path@ && x == WadKind::Pwad),
                },
            },
    {
        let mut st = self;
        st.add_pwad(path, bytes)?;
        Ok(st)
    }

    /// Retrieves a named lump from the last archive that holds the name
    /// uniquely; archives added later shadow earlier ones. A name no
    /// archive holds yields `None`.
    pub fn lump(&self, name: &str) -> (r: Option<&Lump>)
        ensures
            match r {
                Some(l) => stack_lump(self@, name@) == Some(l@),
                None => stack_lump(self@, name@) is None,
            },
    {
        let mut i: usize = self.wads.len();
        proof {
            assert(self@.len() == self.wads@.len());
            assert(self@.take(i as int) =~= self@);
        }
        while i > 0
            invariant
                i <= self@.len(),
                self@.len() == self.wads@.len(),
                stack_lump(self@, name@) == stack_lump(self@.take(i as int), name@),
            decreases i,
        {
            i = i - 1;
            let ghost pre = self@.take(i + 1 as int);
            proof {
                assert(pre.drop_last() =~= self@.take(i as int));
                assert(pre.last() == self@[i as int]);
            }
            match self.wads[i].try_lump(name) {
                Ok(Some(l)) => {
                    return Some(l);
                },
                _ => {},
            }
        }
        proof {
            assert(self@.take(0) =~= Seq::<WadFileV>::empty());
        }
        None
    }

    /// Retrieves the block of `n > 0` lumps following the marker `start`,
    /// marker excluded, from the last archive that can satisfy the whole
    /// block; blocks are never merged across archives.
    pub fn lumps_after(&self, start: &str, n: usize) -> (r: Option<&[Lump]>)
        requires
            n >= 1,
        ensures
            match r {
                Some(sl) => stack_following(self@, start@, n as int) == Some(sl.deep_view()),
                None => stack_following(self@, start@, n as int) is None,
            },
    {
        let mut i: usize = self.wads.len();
        proof {
            assert(self@.len() == self.wads@.len());
            assert(self@.take(i as int) =~= self@);
        }
        while i > 0
            invariant
                n >= 1,
                i <= self@.len(),
                self@.len() == self.wads@.len(),
                stack_following(self@, start@, n as int) == stack_following(
                    self@.take(i as int),
                    start@,
                    n as int,
                ),
            decreases i,
        {
            i = i - 1;
            let ghost pre = self@.take(i + 1 as int);
            proof {
                assert(pre.drop_last() =~= self@.take(i as int));
                assert(pre.last() == self@[i as int]);
            }
            match self.wads[i].try_lumps_following(start, n) {
                Ok(Some(sl)) => {
                    let ghost f = self@[i as int];
                    let ghost a = idx_of(f.lumps, start@);
                    proof {
                        crate::archive::lemma_unique_idx(f.lumps, start@);
                        assert(sl.deep_view() == f.lumps.subrange(a, a + n + 1));
                        assert(sl@.len() == sl.deep_view().len());
                    }
                    let m = sl.len();
                    let interior = vstd::slice::slice_subrange(sl, 1, m);
                    proof {
                        assert forall|k: int| 0 <= k < interior@.len() implies #[trigger] interior.deep_view()[k] == f.lumps.subrange(a + 1, a + n + 1)[k] by {
                            assert(interior@[k] == sl@[k + 1]);
                            assert(interior.deep_view()[k] == interior@[k].deep_view());
                            assert(sl.deep_view()[k + 1] == sl@[k + 1].deep_view());
                        }
                        assert(interior.deep_view() =~= f.lumps.subrange(a + 1, a + n + 1));
                    }
                    return Some(interior);
                },
                _ => {},
            }
        }
        proof {
            assert(self@.take(0) =~= Seq::<WadFileV>::empty());
        }
        None
    }

    /// Retrieves the block of lumps strictly between the markers `start`
    /// and `end` from the last archive that can satisfy the whole block;
    /// blocks are never merged across archives.
    pub fn lumps_between(&self, start: &str, end: &str) -> (r: Option<&[Lump]>)
        ensures
            match r {
                Some(sl) => stack_between(self@, start@, end@) == Some(sl.deep_view()),
                None => stack_between(self@, start@, end@) is None,
            },
    {
        let mut i: usize = self.wads.len();
        proof {
            assert(self@.len() == self.wads@.len());
            assert(self@.take(i as int) =~= self@);
        }
        while i > 0
            invariant
                i <= self@.len(),
                self@.len() == self.wads@.len(),
                stack_between(self@, start@, end@) == stack_between(
                    self@.take(i as int),
                    start@,
                    end@,
                ),
            decreases i,
        {
            i = i - 1;
            let ghost pre = self@.take(i + 1 as int);
            proof {
                assert(pre.drop_last() =~= self@.take(i as int));
                assert(pre.last() == self@[i as int]);
            }
            match self.wads[i].try_lumps_between(start, end) {
                Ok(Some(sl)) => {
                    let ghost f = self@[i as int];
                    let ghost a = idx_of(f.lumps, start@);
                    let ghost b = idx_of(f.lumps, end@);
                    proof {
                        crate::archive::lemma_unique_idx(f.lumps, start@);
                        crate::archive::lemma_unique_idx(f.lumps, end@);
                        assert(sl.deep_view() == f.lumps.subrange(a, b + 1));
                        assert(sl@.len() == sl.deep_view().len());
                    }
                    let m = sl.len();
                    if m >= 2 {
                        let interior = vstd::slice::slice_subrange(sl, 1, m - 1);
                        proof {
                            assert forall|k: int| 0 <= k < interior@.len() implies #[trigger] interior.deep_view()[k] == f.lumps.subrange(a + 1, b)[k] by {
                                assert(interior@[k] == sl@[k + 1]);
                                assert(interior.deep_view()[k] == interior@[k].deep_view());
                                assert(sl.deep_view()[k + 1] == sl@[k + 1].deep_view());
                            }
                            assert(interior.deep_view() =~= f.lumps.subrange(a + 1, b));
                        }
                        return Some(interior);
                    } else {
                        let interior = vstd::slice::slice_subrange(sl, 0, 0);
                        proof {
                            assert(interior.deep_view() =~= Seq::<LumpV>::empty());
                        }
                        return Some(interior);
                    }
                },
                _ => {},
            }
        }
        proof {
            assert(self@.take(0) =~= Seq::<WadFileV>::empty());
        }
        None
    }
}

} // verus!
