//! Palettes: ordered lists of reference colors, with nearest-color search.

use crate::palette_text::{
    color_words, colors_of_words, first_bad_word, is_hex_number, parse_palette_text,
};
use crate::utils::{delta, delta_spec};
use itertools::Itertools;
use smallvec::SmallVec;
use std::num::ParseIntError;
use vstd::prelude::*;

pub mod palettes;

verus! {

/// A palette color: red, green and blue.
pub type Entry = [u8; 3];

/// An RGBA pixel.
pub type Rgba = [u8; 4];

/// Red, green and blue of a color packed as `0xRRGGBB`; bits above the lowest
/// 24 are ignored.
pub open spec fn rgb_of_hex(hex: u32) -> Seq<u8> {
    seq![(hex / 0x10000 % 0x100) as u8, (hex / 0x100 % 0x100) as u8, (hex % 0x100) as u8]
}

/// Unpacks a `0xRRGGBB` color.
pub fn hex_to_rgb(hex: u32) -> (c: Entry)
    ensures
        c@ == rgb_of_hex(hex),
{
    let r = (hex >> 16u32) & 0xFF;
    let g = (hex >> 8u32) & 0xFF;
    let b = hex & 0xFF;
    assert(r == hex / 0x10000 % 0x100) by (bit_vector)
        requires
            r == (hex >> 16u32) & 0xFF,
    ;
    assert(g == hex / 0x100 % 0x100) by (bit_vector)
        requires
            g == (hex >> 8u32) & 0xFF,
    ;
    assert(b == hex % 0x100) by (bit_vector)
        requires
            b == hex & 0xFF,
    ;
    let c = [r as u8, g as u8, b as u8];
    assert(c@ =~= rgb_of_hex(hex));
    c
}

/// Distance from a pixel to a palette entry: alpha has no counterpart in the
/// entry, so only red, green and blue count.
pub open spec fn entry_dist(entries: Seq<Entry>, color: Seq<u8>, j: int) -> int {
    delta_spec(color, entries[j]@)
}

/// Index of the first entry at the smallest distance among the first `n`.
pub open spec fn nearest_upto(entries: Seq<Entry>, color: Seq<u8>, n: nat) -> int
    decreases n,
{
    if n <= 1 {
        0
    } else {
        let k = nearest_upto(entries, color, (n - 1) as nat);
        if entry_dist(entries, color, n - 1) < entry_dist(entries, color, k) {
            n - 1
        } else {
            k
        }
    }
}

/// Index of the first palette entry at the smallest distance from `color`.
pub open spec fn nearest(entries: Seq<Entry>, color: Seq<u8>) -> int {
    nearest_upto(entries, color, entries.len())
}

/// `i` is at the smallest distance from `color`, and every entry before it is
/// strictly farther.
pub open spec fn is_first_nearest(entries: Seq<Entry>, color: Seq<u8>, i: int) -> bool {
    &&& 0 <= i < entries.len()
    &&& forall|j: int|
        0 <= j < entries.len() ==> entry_dist(entries, color, i) <= entry_dist(entries, color, j)
    &&& forall|j: int| 0 <= j < i ==> entry_dist(entries, color, i) < entry_dist(entries, color, j)
}

/// `color` with red, green and blue taken from its nearest palette entry.
pub open spec fn mapped(entries: Seq<Entry>, color: Seq<u8>) -> Seq<u8> {
    let e = entries[nearest(entries, color)];
    seq![e[0], e[1], e[2], color[3]]
}

/// `entry` as an opaque RGBA pixel.
pub open spec fn opaque(entry: Entry) -> Rgba {
    [entry[0], entry[1], entry[2], 255]
}

proof fn lemma_nearest_upto(entries: Seq<Entry>, color: Seq<u8>, n: nat)
    requires
        1 <= n <= entries.len(),
    ensures
        0 <= nearest_upto(entries, color, n) < n,
        forall|j: int|
            0 <= j < n ==> entry_dist(entries, color, nearest_upto(entries, color, n))
                <= #[trigger] entry_dist(entries, color, j),
        forall|j: int|
            0 <= j < nearest_upto(entries, color, n) ==> entry_dist(
                entries,
                color,
                nearest_upto(entries, color, n),
            ) < #[trigger] entry_dist(entries, color, j),
    decreases n,
{
    if n > 1 {
        lemma_nearest_upto(entries, color, (n - 1) as nat);
    }
}

/// The entry that `nearest` picks is at the smallest distance, and no entry
/// before it is as close.
pub proof fn lemma_nearest_is_first_minimum(entries: Seq<Entry>, color: Seq<u8>)
    requires
        entries.len() > 0,
    ensures
        is_first_nearest(entries, color, nearest(entries, color)),
{
    lemma_nearest_upto(entries, color, entries.len());
}

/// Only one index is the first at the smallest distance.
pub proof fn lemma_first_nearest_unique(entries: Seq<Entry>, color: Seq<u8>, i: int, k: int)
    requires
        is_first_nearest(entries, color, i),
        is_first_nearest(entries, color, k),
    ensures
        i == k,
{
    if i < k {
        assert(entry_dist(entries, color, k) < entry_dist(entries, color, i));
    } else if k < i {
        assert(entry_dist(entries, color, i) < entry_dist(entries, color, k));
    }
}

/// For every palette and color, no entry is closer than the one at the index
/// that the nearest-color search returns.
pub proof fn lemma_no_entry_is_closer(entries: Seq<Entry>, color: Seq<u8>, j: int)
    requires
        entries.len() > 0,
        0 <= j < entries.len(),
    ensures
        0 <= nearest(entries, color) < entries.len(),
        !(entry_dist(entries, color, j) < entry_dist(entries, color, nearest(entries, color))),
{
    lemma_nearest_is_first_minimum(entries, color);
}

/// Relies on itertools' `position_min`: the position of the first smallest
/// element, or `None` when there is none.
#[verifier::external_body]
fn position_min_of(v: &Vec<i32>) -> (r: Option<usize>)
    ensures
        r is None <==> v@.len() == 0,
        r matches Some(i) ==> {
            &&& i < v@.len()
            &&& forall|j: int| 0 <= j < v@.len() ==> v@[i as int] <= v@[j]
            &&& forall|j: int| 0 <= j < i ==> v@[i as int] < v@[j]
        },
{
    v.iter().position_min()
}

/// Index of the first entry of `colors` at the smallest distance from `color`.
pub fn nearest_index(colors: &[Entry], color: &Rgba) -> (i: usize)
    requires
        colors@.len() > 0,
    ensures
        i as int == nearest(colors@, color@),
        is_first_nearest(colors@, color@, i as int),
{
    let mut dists: Vec<i32> = Vec::new();
    let mut k: usize = 0;
    while k < colors.len()
        invariant
            k <= colors@.len(),
            dists@.len() == k,
            forall|j: int| 0 <= j < k ==> dists@[j] as int == entry_dist(colors@, color@, j),
        decreases colors@.len() - k,
    {
        let entry = colors[k];
        let d = delta(color.as_slice(), entry.as_slice());
        dists.push(d);
        k = k + 1;
    }
    proof {
        lemma_nearest_is_first_minimum(colors@, color@);
    }
    match position_min_of(&dists) {
        Some(i) => {
            proof {
                assert forall|j: int| 0 <= j < colors@.len() implies entry_dist(
                    colors@,
                    color@,
                    i as int,
                ) <= entry_dist(colors@, color@, j) by {
                    assert(dists@[i as int] <= dists@[j]);
                }
                assert forall|j: int| 0 <= j < i implies entry_dist(colors@, color@, i as int)
                    < entry_dist(colors@, color@, j) by {
                    assert(dists@[i as int] < dists@[j]);
                }
                lemma_first_nearest_unique(colors@, color@, i as int, nearest(colors@, color@));
            }
            i
        },
        None => 0,
    }
}

/// A palette: an ordered list of colors that answers nearest-color queries
/// on RGBA pixels. Alpha takes no part in the search and is never changed.
pub trait Palette {
    /// The palette's colors, in order.
    spec fn entries(&self) -> Seq<Entry>;

    /// Number of colors.
    fn len(&self) -> (n: usize)
        ensures
            n as int == self.entries().len(),
    ;

    /// Index of the first color at the smallest distance from `color`.
    fn index_of(&self, color: &Rgba) -> (i: usize)
        requires
            self.entries().len() > 0,
        ensures
            i as int == nearest(self.entries(), color@),
    ;

    /// Replaces red, green and blue of `color` by its nearest palette color.
    fn map_color(&self, color: &mut Rgba)
        requires
            self.entries().len() > 0,
        ensures
            final(color)@ == mapped(self.entries(), old(color)@),
    ;

    /// Whether `lookup` gives the palette's colors; always so here.
    fn has_lookup(&self) -> (b: bool)
        ensures
            b,
    ;

    /// The color at `index` as an opaque pixel, or `None` past the end.
    fn lookup(&self, index: usize) -> (r: Option<Rgba>)
        ensures
            index < self.entries().len() ==> r == Some(opaque(self.entries()[index as int])),
            index >= self.entries().len() ==> r is None,
    ;
}

/// Replaces the color channels of `color` by `entry`, keeping alpha.
fn set_rgb(color: &mut Rgba, entry: Entry)
    ensures
        final(color)@ == seq![entry[0], entry[1], entry[2], old(color)@[3]],
{
    color[0] = entry[0];
    color[1] = entry[1];
    color[2] = entry[2];
    assert(final(color)@ =~= seq![entry[0], entry[1], entry[2], old(color)@[3]]);
}

/// Palette of a size fixed by its type, for built-in color tables.
#[derive(Debug, Clone, Hash, PartialEq, Eq)]
pub struct StaticPalette<const N: usize> {
    colors: [Entry; N],
}

impl<const N: usize> StaticPalette<N> {
    /// Builds a palette from `0xRRGGBB` colors, in order.
    pub fn from_rgb_hex(hex: [u32; N]) -> (p: Self)
        ensures
            p.entries().len() == N,
            forall|i: int| 0 <= i < N ==> (#[trigger] p.entries()[i])@ == rgb_of_hex(hex[i]),
    {
        let mut colors: [Entry; N] = [[0u8; 3]; N];
        let mut i: usize = 0;
        while i < N
            invariant
                i <= N,
                colors@.len() == N,
                forall|j: int| 0 <= j < i ==> (#[trigger] colors@[j])@ == rgb_of_hex(hex[j]),
            decreases N - i,
        {
            colors[i] = hex_to_rgb(hex[i]);
            i = i + 1;
        }
        StaticPalette { colors }
    }

    /// A palette of this type has exactly `N` colors.
    pub proof fn lemma_has_n_colors(self)
        ensures
            self.entries().len() == N,
    {
    }

    /// A palette of any size with the same colors in the same order.
    #[allow(clippy::should_implement_trait, clippy::wrong_self_convention)]
    pub fn into(self) -> (p: DynamicPalette)
        ensures
            p.entries() == self.entries(),
    {
        let mut colors: Vec<Entry> = Vec::new();
        let mut i: usize = 0;
        while i < N
            invariant
                i <= N,
                self.colors@.len() == N,
                colors@ == self.colors@.take(i as int),
            decreases N - i,
        {
            colors.push(self.colors[i]);
            i = i + 1;
            assert(colors@ =~= self.colors@.take(i as int));
        }
        assert(self.colors@.take(N as int) =~= self.colors@);
        DynamicPalette::from_entries(colors)
    }

    /// Builds a palette from its colors, in order.
    pub fn from_colors(colors: [Entry; N]) -> (p: Self)
        ensures
            p.entries() == colors@,
    {
        StaticPalette { colors }
    }
}

impl<const N: usize> Palette for StaticPalette<N> {
    closed spec fn entries(&self) -> Seq<Entry> {
        self.colors@
    }

    fn len(&self) -> (n: usize) {
        N
    }

    fn index_of(&self, color: &Rgba) -> (i: usize) {
        nearest_index(self.colors.as_slice(), color)
    }

    fn map_color(&self, color: &mut Rgba) {
        let i = nearest_index(self.colors.as_slice(), color);
        set_rgb(color, self.colors[i]);
    }

    fn has_lookup(&self) -> (b: bool) {
        true
    }

    fn lookup(&self, index: usize) -> (r: Option<Rgba>) {
        if index < N {
            let e = self.colors[index];
            Some([e[0], e[1], e[2], 255])
        } else {
            None
        }
    }
}

/// Palette colors held in a `SmallVec` that keeps up to sixteen of them
/// inline.
#[verifier::external_body]
#[derive(Debug, Hash, PartialEq, Eq)]
pub struct EntryList {
    items: SmallVec<[Entry; 16]>,
}

/// The colors that a list holds, in order.
pub uninterp spec fn list_entries(v: EntryList) -> Seq<Entry>;

/// Relies on `SmallVec::from_vec`: the small vector holds the vector's
/// elements in the same order.
#[verifier::external_body]
fn list_from_vec(v: Vec<Entry>) -> (r: EntryList)
    ensures
        list_entries(r) == v@,
{
    EntryList { items: SmallVec::from_vec(v) }
}

impl Clone for EntryList {
    /// Relies on `SmallVec`'s `Clone`: the copy holds the same colors.
    #[verifier::external_body]
    fn clone(&self) -> (r: Self)
        ensures
            list_entries(r) == list_entries(*self),
    {
        EntryList { items: self.items.clone() }
    }
}

/// Relies on `SmallVec::as_slice`: a slice of the elements, in order.
#[verifier::external_body]
fn list_as_slice(v: &EntryList) -> (r: &[Entry])
    ensures
        r@ == list_entries(*v),
{
    v.items.as_slice()
}

/// The colors of `parts`, part after part.
pub open spec fn joined(parts: Seq<DynamicPalette>) -> Seq<Entry> {
    parts.map_values(|q: DynamicPalette| q.entries()).flatten()
}

/// Joining a list of palettes and one more palette appends the latter's
/// colors to the join of the list.
pub proof fn lemma_joined_push(parts: Seq<DynamicPalette>, last: DynamicPalette)
    ensures
        joined(parts.push(last)) == joined(parts) + last.entries(),
{
    assert(parts.push(last).map_values(|q: DynamicPalette| q.entries()) =~= parts.map_values(
        |q: DynamicPalette| q.entries(),
    ).push(last.entries()));
    parts.map_values(|q: DynamicPalette| q.entries()).lemma_flatten_push(last.entries());
}

/// Joining four palettes gives all their colors, the first palette's first
/// and the last one's last, each part in its own order; the sizes add up.
pub proof fn lemma_joined_four(a: DynamicPalette, b: DynamicPalette, c: DynamicPalette, d: DynamicPalette)
    ensures
        joined(seq![a, b, c, d]) == a.entries() + b.entries() + c.entries() + d.entries(),
        joined(seq![a, b, c, d]).len() == a.entries().len() + b.entries().len()
            + c.entries().len() + d.entries().len(),
{
    let none = Seq::<DynamicPalette>::empty();
    assert(joined(none) =~= Seq::<Entry>::empty()) by {
        assert(none.map_values(|q: DynamicPalette| q.entries()) =~= Seq::<Seq<Entry>>::empty());
    }
    lemma_joined_push(none, a);
    lemma_joined_push(none.push(a), b);
    lemma_joined_push(none.push(a).push(b), c);
    lemma_joined_push(none.push(a).push(b).push(c), d);
    assert(none.push(a).push(b).push(c).push(d) =~= seq![a, b, c, d]);
    assert(Seq::<Entry>::empty() + a.entries() =~= a.entries());
}

/// Palette built at run time, of any size, for custom palettes.
#[derive(Debug, Clone, Hash, PartialEq, Eq)]
pub struct DynamicPalette {
    colors: EntryList,
}

impl DynamicPalette {
    /// Builds a palette from its colors, in order.
    pub fn from_entries(colors: Vec<Entry>) -> (p: Self)
        ensures
            p.entries() == colors@,
    {
        DynamicPalette { colors: list_from_vec(colors) }
    }

    /// Reads a palette text: each line whose first character other than white
    /// space is `#` names a color by the hexadecimal `RRGGBB` word that
    /// follows; the rest of such a line, and every other line, is a comment.
    /// Fails with the error of the first color word that is not a hexadecimal
    /// number, and never returns part of a palette. A text without color
    /// lines gives an empty palette.
    pub fn from_palette_str(s: &str) -> (r: Result<Self, ParseIntError>)
        ensures
            r is Ok <==> forall|k: int|
                0 <= k < color_words(s@).len() ==> is_hex_number(#[trigger] color_words(s@)[k]),
            r matches Ok(p) ==> p.entries().len() == color_words(s@).len() && forall|k: int|
                0 <= k < p.entries().len() ==> (#[trigger] p.entries()[k])@ == colors_of_words(
                    color_words(s@),
                )[k],
            r is Err ==> exists|k: int| first_bad_word(color_words(s@), k, r->Err_0),
    {
        let res = parse_palette_text(s);
        match res {
            Ok(colors) => Ok(Self::from_entries(colors)),
            Err(e) => {
                let r: Result<Self, ParseIntError> = Err(e);
                proof {
                    let k = choose|k: int| first_bad_word(color_words(s@), k, res->Err_0);
                    assert(first_bad_word(color_words(s@), k, r->Err_0));
                }
                r
            },
        }
    }

    /// One palette of the colors of `parts`, part after part, each in its
    /// own order.
    pub fn concat(parts: &[DynamicPalette]) -> (p: Self)
        ensures
            p.entries() == joined(parts@),
    {
        let mut colors: Vec<Entry> = Vec::new();
        let mut k: usize = 0;
        while k < parts.len()
            invariant
                k <= parts@.len(),
                colors@ == joined(parts@.take(k as int)),
            decreases parts@.len() - k,
        {
            let part = parts[k].colors();
            let ghost before = colors@;
            let mut j: usize = 0;
            while j < part.len()
                invariant
                    j <= part@.len(),
                    colors@ == before + part@.take(j as int),
                decreases part@.len() - j,
            {
                colors.push(part[j]);
                j = j + 1;
                assert(colors@ =~= before + part@.take(j as int));
            }
            proof {
                let firsts = parts@.take(k as int);
                assert(parts@.take(k + 1) =~= firsts.push(parts@[k as int]));
                assert(firsts.push(parts@[k as int]).map_values(|q: DynamicPalette| q.entries())
                    =~= firsts.map_values(|q: DynamicPalette| q.entries()).push(
                    parts@[k as int].entries(),
                ));
                firsts.map_values(|q: DynamicPalette| q.entries()).lemma_flatten_push(
                    parts@[k as int].entries(),
                );
                assert(part@.take(part@.len() as int) =~= part@);
            }
            k = k + 1;
        }
        assert(parts@.take(parts@.len() as int) =~= parts@);
        Self::from_entries(colors)
    }

    /// The palette's colors, in order.
    pub fn colors(&self) -> (s: &[Entry])
        ensures
            s@ == self.entries(),
    {
        list_as_slice(&self.colors)
    }
}

impl Palette for DynamicPalette {
    closed spec fn entries(&self) -> Seq<Entry> {
        list_entries(self.colors)
    }

    fn len(&self) -> (n: usize) {
        self.colors().len()
    }

    fn index_of(&self, color: &Rgba) -> (i: usize) {
        nearest_index(self.colors(), color)
    }

    fn map_color(&self, color: &mut Rgba) {
        let colors = self.colors();
        let i = nearest_index(colors, color);
        set_rgb(color, colors[i]);
    }

    fn has_lookup(&self) -> (b: bool) {
        true
    }

    fn lookup(&self, index: usize) -> (r: Option<Rgba>) {
        let colors = self.colors();
        if index < colors.len() {
            let e = colors[index];
            Some([e[0], e[1], e[2], 255])
        } else {
            None
        }
    }
}

} // verus!
