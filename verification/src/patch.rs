//! The picture format used for sprites and wall textures: a small header,
//! one offset per column, and per-column runs ("posts") of opaque pixels,
//! each column ended by a terminator byte. Decoding honours the "tall
//! patch" quirk: a post whose stored row offset does not exceed the
//! previous post's resolved offset is a delta from it, not an absolute row.

use vstd::prelude::*;

use crate::bytes::{le16_at, le32_at, read_le16, read_le32};
use crate::error::WadError;
use crate::lump::Lump;

verus! {

/// The mathematical value of a [`Post`]: its resolved row offset and its
/// pixel bytes.
pub ghost struct PostV {
    pub y_offset: u16,
    pub pixels: Seq<u8>,
}

/// The mathematical value of a [`Patch`].
pub ghost struct PatchV {
    pub name: Seq<char>,
    pub width: u16,
    pub height: u16,
    pub top: i16,
    pub left: i16,
    pub columns: Seq<Seq<PostV>>,
}

/// One vertical run of opaque pixels within a column.
#[derive(Debug, Clone)]
pub struct Post {
    /// The resolved absolute row the run starts at.
    pub y_offset: u16,
    /// One palette index per pixel of the run.
    pub pixels: Vec<u8>,
}

impl View for Post {
    type V = PostV;

    open spec fn view(&self) -> PostV {
        PostV { y_offset: self.y_offset, pixels: self.pixels@ }
    }
}

impl DeepView for Post {
    type V = PostV;

    open spec fn deep_view(&self) -> PostV {
        self@
    }
}

/// The posts of one horizontal pixel position of a patch.
#[derive(Debug, Clone)]
pub struct Column {
    /// The column's posts, top to bottom as stored.
    pub posts: Vec<Post>,
}

impl View for Column {
    type V = Seq<PostV>;

    open spec fn view(&self) -> Seq<PostV> {
        self.posts.deep_view()
    }
}

impl DeepView for Column {
    type V = Seq<PostV>;

    open spec fn deep_view(&self) -> Seq<PostV> {
        self@
    }
}

/// The row a post starts at: the stored byte is absolute for the first
/// post of a column, and also for a later post when it exceeds the
/// previous post's resolved offset; otherwise it is a delta added to the
/// previous resolved offset ("tall patches").
pub open spec fn resolve_y(raw: u8, prev: Option<u16>) -> int {
    match prev {
        Some(p) => if raw <= p {
            p + raw
        } else {
            raw as int
        },
        None => raw as int,
    }
}

/// The posts encoded at `pos`, read until a terminator byte 255: each post
/// is a stored row byte, a length byte, a padding byte, `length` pixel
/// bytes and a trailing padding byte. Nothing when any read would run past
/// the end of the data or a resolved row offset cannot be represented.
pub open spec fn parse_posts(d: Seq<u8>, pos: int, prev: Option<u16>) -> Option<Seq<PostV>>
    decreases d.len() - pos,
{
    if pos < 0 || pos >= d.len() {
        None
    } else if d[pos] == 255 {
        Some(Seq::empty())
    } else {
        let raw = d[pos];
        let len = d[pos + 1] as int;
        if pos + 4 + len > d.len() {
            None
        } else {
            let y = resolve_y(raw, prev);
            if y > u16::MAX {
                None
            } else {
                let post = PostV { y_offset: y as u16, pixels: d.subrange(pos + 3, pos + 3 + len) };
                match parse_posts(d, pos + 4 + len, Some(y as u16)) {
                    Some(rest) => Some(seq![post] + rest),
                    None => None,
                }
            }
        }
    }
}

/// Law: tall-patch decoding. In any decoded column the first post's
/// offset is the stored byte itself, and whenever the second post's
/// stored byte does not exceed the first post's resolved offset, the
/// second post resolves to their sum — not to the stored byte.
pub proof fn lemma_tall_patch(d: Seq<u8>, pos: int)
    requires
        parse_posts(d, pos, None) is Some,
        parse_posts(d, pos, None)->Some_0.len() >= 2,
    ensures
        ({
            let ps = parse_posts(d, pos, None)->Some_0;
            let second = pos + 4 + ps[0].pixels.len();
            &&& ps[0].y_offset == d[pos]
            &&& (d[second] <= ps[0].y_offset ==> ps[1].y_offset == ps[0].y_offset + d[second])
        }),
{
    let ps = parse_posts(d, pos, None)->Some_0;
    let len0 = d[pos + 1] as int;
    let y0 = resolve_y(d[pos], None);
    let rest = parse_posts(d, pos + 4 + len0, Some(y0 as u16))->Some_0;
    assert(ps == seq![
        PostV { y_offset: y0 as u16, pixels: d.subrange(pos + 3, pos + 3 + len0) },
    ] + rest);
    assert(ps[0].pixels.len() == len0);
    let second = pos + 4 + len0;
    assert(ps[1] == rest[0]);
    let rest2 = parse_posts(d, second, Some(y0 as u16));
    assert(rest2 is Some && rest.len() >= 1);
    if d[second] <= ps[0].y_offset {
        assert(resolve_y(d[second], Some(y0 as u16)) == y0 + d[second]);
    }
}

/// The offset of column `i`'s post data, stored just after the 8-byte
/// header.
pub open spec fn column_offset(d: Seq<u8>, i: int) -> int {
    le32_at(d, 8 + 4 * i) as int
}

/// The meaning of a whole picture lump named `name`: its header fields and
/// one decoded post sequence per column, or nothing when any part of it is
/// malformed.
pub open spec fn decode_patch(name: Seq<char>, d: Seq<u8>) -> Option<PatchV> {
    if d.len() < 8 {
        None
    } else {
        let width = le16_at(d, 0);
        if 8 + 4 * (width as int) > d.len() {
            None
        } else if forall|i: int|
            0 <= i < width as int ==> #[trigger] parse_posts(d, column_offset(d, i), None) is Some {
            Some(
                PatchV {
                    name,
                    width,
                    height: le16_at(d, 2),
                    left: le16_at(d, 4) as i16,
                    top: le16_at(d, 6) as i16,
                    columns: Seq::new(
                        width as nat,
                        |i: int| parse_posts(d, column_offset(d, i), None)->Some_0,
                    ),
                },
            )
        } else {
            None
        }
    }
}

/// One decoded picture: a name, width and height in pixels, drawing
/// offsets, and one column of posts per horizontal pixel position.
#[derive(Debug, Clone)]
pub struct Patch {
    name: String,
    width: u16,
    height: u16,
    top: i16,
    left: i16,
    columns: Vec<Column>,
}

impl View for Patch {
    type V = PatchV;

    closed spec fn view(&self) -> PatchV {
        PatchV {
            name: self.name@,
            width: self.width,
            height: self.height,
            top: self.top,
            left: self.left,
            columns: self.columns.deep_view(),
        }
    }
}

impl DeepView for Patch {
    type V = PatchV;

    open spec fn deep_view(&self) -> PatchV {
        self@
    }
}

impl Patch {
    /// Decodes the posts of one column, starting at `off`.
    fn parse_column(data: &[u8], off: usize) -> (r: Option<Column>)
        ensures
            match r {
                Some(c) => parse_posts(data@, off as int, None) == Some(c@),
                None => parse_posts(data@, off as int, None) is None,
            },
    {
        let mut posts: Vec<Post> = Vec::new();
        let mut pos: usize = off;
        let mut prev: Option<u16> = None;
        loop
            invariant
                match parse_posts(data@, pos as int, prev) {
                    Some(rest) => parse_posts(data@, off as int, None) == Some(
                        posts.deep_view() + rest,
                    ),
                    None => parse_posts(data@, off as int, None) is None,
                },
            decreases data@.len() - pos,
        {
            if pos >= data.len() {
                return None;
            }
            let raw = data[pos];
            if raw == 255 {
                proof {
                    assert(posts.deep_view() + Seq::<PostV>::empty() =~= posts.deep_view());
                }
                return Some(Column { posts });
            }
            let avail = data.len() - pos;
            if avail < 4 {
                return None;
            }
            let len_px = data[pos + 1] as usize;
            if len_px > avail - 4 {
                return None;
            }
            let r32: u32 = match prev {
                Some(p) => if (raw as u16) <= p {
                    (p as u32) + (raw as u32)
                } else {
                    raw as u32
                },
                None => raw as u32,
            };
            if r32 > 65535 {
                return None;
            }
            let y = r32 as u16;
            let pixels = vstd::slice::slice_to_vec(
                vstd::slice::slice_subrange(data, pos + 3, pos + 3 + len_px),
            );
            let ghost post_v = PostV {
                y_offset: y,
                pixels: data@.subrange(pos + 3, pos + 3 + len_px as int),
            };
            let ghost posts_before = posts.deep_view();
            posts.push(Post { y_offset: y, pixels });
            proof {
                assert(posts.deep_view() =~= posts_before.push(post_v));
            }
            let ghost old_pos = pos as int;
            let ghost old_prev = prev;
            prev = Some(y);
            pos = pos + 4 + len_px;
            proof {
                assert(resolve_y(raw, old_prev) == r32 as int);
                match parse_posts(data@, pos as int, prev) {
                    Some(rest) => {
                        assert(parse_posts(data@, old_pos, old_prev) == Some(seq![post_v] + rest));
                        assert(posts_before + (seq![post_v] + rest) =~= posts_before.push(post_v)
                            + rest);
                    },
                    None => {
                        assert(parse_posts(data@, old_pos, old_prev) is None);
                    },
                }
            }
        }
    }

    /// Decodes a picture lump: the header, the column offsets, and every
    /// column's posts. The first byte that would be read past the end of
    /// the lump fails the whole picture.
    pub fn load(lump: &Lump) -> (r: Result<Patch, WadError>)
        ensures
            match r {
                Ok(p) => decode_patch(lump@.name, lump@.data) == Some(p@),
                Err(e) => decode_patch(lump@.name, lump@.data) is None && (e
                    matches WadError::Malformed { path: pp, .. } && pp@ == lump@.path),
            },
    {
        let data = lump.data().as_slice();
        let ghost d = data@;
        if data.len() < 8 {
            return Err(lump.error("bad patch data"));
        }
        let width = read_le16(data, 0);
        let height = read_le16(data, 2);
        let left = read_le16(data, 4) as i16;
        let top = read_le16(data, 6) as i16;
        let w = width as usize;
        if 8 + 4 * w > data.len() {
            return Err(lump.error("bad patch data"));
        }
        // The width is untrusted: clamp the initial reservation.
        let mut columns: Vec<Column> = Vec::with_capacity(
            if w < 512 {
                w
            } else {
                512
            },
        );
        let mut c: usize = 0;
        while c < w
            invariant
                d == data@,
                d == lump@.data,
                w == le16_at(d, 0),
                8 + 4 * w <= d.len(),
                c <= w,
                columns.deep_view().len() == c,
                forall|j: int|
                    0 <= j < c ==> parse_posts(d, column_offset(d, j), None) == Some(
                        #[trigger] columns.deep_view()[j],
                    ),
            decreases w - c,
        {
            let off32 = read_le32(data, 8 + 4 * c);
            let col = match Self::parse_column(data, off32 as usize) {
                Some(cl) => cl,
                None => {
                    proof {
                        assert(parse_posts(d, column_offset(d, c as int), None) is None);
                    }
                    return Err(lump.error("bad patch data"));
                },
            };
            let ghost before = columns.deep_view();
            let ghost cv = col@;
            columns.push(col);
            proof {
                assert(columns.deep_view() =~= before.push(cv));
            }
            c = c + 1;
        }
        let p = Patch {
            name: lump.name.clone(),
            width,
            height,
            top,
            left,
            columns,
        };
        proof {
            assert forall|i: int| 0 <= i < width as int implies #[trigger] parse_posts(
                d,
                column_offset(d, i),
                None,
            ) is Some by {
                assert(parse_posts(d, column_offset(d, i), None) == Some(p@.columns[i]));
            }
            assert(p@.columns =~= Seq::new(
                width as nat,
                |i: int| parse_posts(d, column_offset(d, i), None)->Some_0,
            ));
        }
        Ok(p)
    }

    /// The patch's name: the name of the lump it was decoded from.
    pub fn name(&self) -> (r: &str)
        ensures
            r@ == self@.name,
    {
        self.name.as_str()
    }

    /// Width in pixels.
    pub fn width(&self) -> (r: u16)
        ensures
            r == self@.width,
    {
        self.width
    }

    /// Height in pixels.
    pub fn height(&self) -> (r: u16)
        ensures
            r == self@.height,
    {
        self.height
    }

    /// Top drawing offset.
    pub fn top(&self) -> (r: i16)
        ensures
            r == self@.top,
    {
        self.top
    }

    /// Left drawing offset.
    pub fn left(&self) -> (r: i16)
        ensures
            r == self@.left,
    {
        self.left
    }

    /// The decoded columns, one per horizontal pixel position.
    pub fn columns(&self) -> (r: &Vec<Column>)
        ensures
            r.deep_view() == self@.columns,
    {
        &self.columns
    }
}

/// The name of the lump that lists the patch names.
pub open spec fn pnames_name() -> Seq<char> {
    "PNAMES"@
}

/// One byte of a listed patch name, folded to uppercase as the original
/// engine does: one known legacy archive stores a name in lowercase.
pub open spec fn upper_byte(b: u8) -> u8 {
    if 97 <= b && b <= 122 {
        (b - 32) as u8
    } else {
        b
    }
}

/// A whole name field folded to uppercase.
pub open spec fn upper_bytes(s: Seq<u8>) -> Seq<u8> {
    Seq::new(s.len(), |i: int| upper_byte(s[i]))
}

/// The `i`th name listed in a name-list lump: 8 bytes after the 4-byte
/// count, folded to uppercase, stripped of trailing zero padding, and
/// validated like a directory name; nothing when it is illegal.
pub open spec fn listed_name(d: Seq<u8>, i: int) -> Option<Seq<char>> {
    let t = crate::name::trim_zeros(upper_bytes(d.subrange(4 + 8 * i, 12 + 8 * i)));
    if crate::name::is_legal_name_bytes(t) {
        Some(crate::name::chars_of_bytes(t))
    } else {
        None
    }
}

/// The patch decoded for the `i`th listed name, resolved through the
/// stack: nothing when the name is illegal, resolves to no lump, or its
/// lump does not decode.
pub open spec fn bank_entry(ws: Seq<crate::archive::WadFileV>, d: Seq<u8>, i: int) -> Option<
    PatchV,
> {
    match listed_name(d, i) {
        None => None,
        Some(nm) => match crate::stack::stack_lump(ws, nm) {
            None => None,
            Some(l) => decode_patch(l.name, l.data),
        },
    }
}

/// The meaning of loading a whole patch table from a stack: the name-list
/// lump's count, then one decoded patch per listed name, in list order;
/// nothing when any step fails.
pub open spec fn bank_load(ws: Seq<crate::archive::WadFileV>) -> Option<Seq<PatchV>> {
    match crate::stack::stack_lump(ws, pnames_name()) {
        None => None,
        Some(pn) => {
            let d = pn.data;
            if d.len() < 4 {
                None
            } else {
                let count = le32_at(d, 0) as int;
                if 4 + 8 * count > d.len() {
                    None
                } else if forall|i: int| 0 <= i < count ==> #[trigger] bank_entry(ws, d, i) is Some {
                    Some(Seq::new(count as nat, |i: int| bank_entry(ws, d, i)->Some_0))
                } else {
                    None
                }
            }
        },
    }
}

/// The decoded patches of a name-list lump, in list order. Positions are
/// significant: texture definitions address patches by index.
#[derive(Debug, Clone)]
pub struct PatchBank {
    patches: Vec<Patch>,
}

impl View for PatchBank {
    type V = Seq<PatchV>;

    closed spec fn view(&self) -> Seq<PatchV> {
        self.patches.deep_view()
    }
}

/// Folds a name field to uppercase.
fn to_upper_vec(raw: &[u8]) -> (r: Vec<u8>)
    ensures
        r@ == upper_bytes(raw@),
{
    let mut out: Vec<u8> = Vec::new();
    let mut i: usize = 0;
    while i < raw.len()
        invariant
            i <= raw@.len(),
            out@ =~= upper_bytes(raw@.subrange(0, i as int)),
        decreases raw@.len() - i,
    {
        let b = raw[i];
        let u = if 97 <= b && b <= 122 {
            b - 32
        } else {
            b
        };
        out.push(u);
        proof {
            assert(out@ =~= upper_bytes(raw@.subrange(0, i + 1 as int)));
        }
        i = i + 1;
    }
    proof {
        assert(raw@.subrange(0, raw@.len() as int) =~= raw@);
    }
    out
}

impl PatchBank {
    /// Loads every patch a stack's name-list lump names, decoding each
    /// named lump in list order; any failure aborts the whole table.
    pub fn load(wad: &crate::stack::WadStack) -> (r: Result<PatchBank, WadError>)
        ensures
            match r {
                Ok(b) => bank_load(wad@) == Some(b@),
                Err(e) => bank_load(wad@) is None && e matches WadError::Malformed { .. },
            },
    {
        let lump = match wad.lump("PNAMES") {
            Some(l) => l,
            None => {
                return Err(WadError::malformed("", "PNAMES missing"));
            },
        };
        let data = lump.data().as_slice();
        let ghost d = data@;
        if data.len() < 4 {
            return Err(lump.error("bad patch list data"));
        }
        let count32 = read_le32(data, 0);
        if 4u64 + 8u64 * (count32 as u64) > data.len() as u64 {
            return Err(lump.error("bad patch list data"));
        }
        let count = count32 as usize;
        // The listed count is untrusted: clamp the initial reservation.
        let mut patches: Vec<Patch> = Vec::with_capacity(
            if count < 1024 {
                count
            } else {
                1024
            },
        );
        let mut i: usize = 0;
        while i < count
            invariant
                d == data@,
                crate::stack::stack_lump(wad@, pnames_name()) == Some(lump@),
                d == lump@.data,
                count == le32_at(d, 0),
                4 + 8 * count <= d.len(),
                d.len() <= usize::MAX,
                i <= count,
                patches.deep_view().len() == i,
                forall|j: int|
                    0 <= j < i ==> bank_entry(wad@, d, j) == Some(
                        #[trigger] patches.deep_view()[j],
                    ),
            decreases count - i,
        {
            proof {
                assert(8 * i + 8 <= 8 * count);
            }
            let base = 4 + 8 * i;
            let raw = vstd::slice::slice_subrange(data, base, base + 8);
            let upper = to_upper_vec(raw);
            let name = match crate::name::read_raw_name(upper.as_slice()) {
                Some(n) => n,
                None => {
                    proof {
                        assert(listed_name(d, i as int) is None);
                    }
                    let mut desc = String::new();
                    desc.append("contains bad lump name ");
                    desc.append(crate::name::describe_bytes(raw).as_str());
                    return Err(lump.error(desc.as_str()));
                },
            };
            let named = match wad.lump(name.as_str()) {
                Some(l) => l,
                None => {
                    let mut desc = name;
                    desc.append(" missing");
                    return Err(WadError::Malformed { path: lump.path.clone(), desc });
                },
            };
            let patch = match Patch::load(named) {
                Ok(p) => p,
                Err(e) => {
                    return Err(e);
                },
            };
            let ghost before = patches.deep_view();
            let ghost pv = patch@;
            proof {
                assert(bank_entry(wad@, d, i as int) == Some(pv));
            }
            patches.push(patch);
            proof {
                assert(patches.deep_view() =~= before.push(pv));
            }
            i = i + 1;
        }
        proof {
            let entries = Seq::new(count as nat, |j: int| bank_entry(wad@, d, j)->Some_0);
            assert forall|j: int| 0 <= j < count implies (#[trigger] bank_entry(
                wad@,
                d,
                j,
            )) is Some by {
                assert(bank_entry(wad@, d, j) == Some(patches.deep_view()[j]));
            }
            assert(patches.deep_view() =~= entries);
        }
        Ok(PatchBank { patches })
    }

    /// The number of patches in the table.
    pub fn len(&self) -> (r: usize)
        ensures
            r == self@.len(),
    {
        self.patches.len()
    }

    /// The patch at a position of the table.
    pub fn get(&self, index: usize) -> (r: &Patch)
        requires
            index < self@.len(),
        ensures
            r@ == self@[index as int],
    {
        &self.patches[index]
    }
}

} // verus!
