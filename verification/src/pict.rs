//! The pictures of a story, as far as they resolve.

use crate::art::{scalable, scaled_art, v6_scaled_art};
use crate::raster::{Grid, Raster};
use vstd::prelude::*;

verus! {

/// A picture: its number, its extent in its own pixels, and its pixels under the palette
/// that is current, if it can be drawn.
#[derive(Debug)]
pub struct PictEntry {
    pub number: u16,
    pub width: u32,
    pub height: u32,
    pub image: Option<Raster>,
}

/// The pictures of a story under the current palette.
#[derive(Debug)]
pub struct PictSource {
    pub pictures: Vec<PictEntry>,
    /// The current palette, if a picture has established one.
    pub palette: Option<Vec<u8>>,
    /// Advances with every change of the palette.
    pub palette_gen: u64,
}

/// The index of the first picture with a number; the number of pictures if there is none.
pub open spec fn find_pict(pics: Seq<PictEntry>, number: u16) -> int
    decreases pics.len(),
{
    if pics.len() == 0 || pics[0].number == number {
        0
    } else {
        1 + find_pict(pics.drop_first(), number)
    }
}

/// The index is in range.
proof fn lemma_find_pict(pics: Seq<PictEntry>, number: u16, k: int)
    requires
        0 <= k <= pics.len(),
        k < pics.len() ==> pics[k].number == number,
        forall|i: int| 0 <= i < k ==> (#[trigger] pics[i]).number != number,
    ensures
        find_pict(pics, number) == k,
    decreases k,
{
    if k > 0 {
        assert(pics[0].number != number);
        assert forall|i: int| 0 <= i < k - 1 implies (#[trigger] pics.drop_first()[i]).number
            != number by {
            assert(pics.drop_first()[i] == pics[i + 1]);
        }
        lemma_find_pict(pics.drop_first(), number, k - 1);
    }
}

impl PictSource {
    /// Whether there is a picture with the number.
    pub open spec fn has(&self, number: u16) -> bool {
        0 <= find_pict(self.pictures@, number) < self.pictures@.len()
    }

    /// The picture with a number.
    pub open spec fn entry(&self, number: u16) -> PictEntry {
        self.pictures@[find_pict(self.pictures@, number)]
    }

    /// The extent of a picture in its own pixels.
    pub open spec fn dims_of(&self, number: u16) -> Option<(u32, u32)> {
        if self.has(number) {
            Some((self.entry(number).width, self.entry(number).height))
        } else {
            None
        }
    }

    /// The pictures as they stand on the screen, at a scale.
    pub open spec fn screen_art(&self, scale: (u32, u32)) -> Map<u16, Grid> {
        Map::new(
            |n: u16| self.has(n) && self.entry(n).image is Some,
            |n: u16|
                {
                    let i = self.entry(n).image->0;
                    scaled_art(i.grid(), i.width, i.height, scale)
                },
        )
    }

    /// The pixels of every picture fit its extent, and can be scaled.
    pub open spec fn wf(&self, scale: (u32, u32)) -> bool {
        forall|i: int|
            0 <= i < self.pictures@.len() ==> ((#[trigger] self.pictures@[i]).image matches Some(p)
                ==> p.wf() && scalable(p.width as int, p.height as int, scale))
    }

    /// Looks a picture up.
    fn find(&self, number: u16) -> (r: usize)
        ensures
            r == find_pict(self.pictures@, number),
            r <= self.pictures@.len(),
    {
        let mut i: usize = 0;
        while i < self.pictures.len() && self.pictures[i].number != number
            invariant
                i <= self.pictures@.len(),
                forall|j: int| 0 <= j < i ==> (#[trigger] self.pictures@[j]).number != number,
            decreases self.pictures.len() - i,
        {
            i = i + 1;
        }
        proof {
            lemma_find_pict(self.pictures@, number, i as int);
        }
        i
    }

    /// The extent of a picture in its own pixels.
    pub fn dims(&self, number: u16) -> (r: Option<(u32, u32)>)
        ensures
            r == self.dims_of(number),
    {
        let i: usize = self.find(number);
        if i < self.pictures.len() {
            Some((self.pictures[i].width, self.pictures[i].height))
        } else {
            None
        }
    }

    /// A picture as it stands on the screen, under the current palette.
    pub fn image_under_current_palette(&self, number: u16, scale: (u32, u32)) -> (r: Option<Raster>)
        requires
            self.wf(scale),
        ensures
            r is Some <==> self.screen_art(scale).dom().contains(number),
            r matches Some(i) ==> i.wf() && i.grid() == self.screen_art(scale)[number],
    {
        let i: usize = self.find(number);
        if i < self.pictures.len() {
            if let Some(img) = &self.pictures[i].image {
                return Some(v6_scaled_art(img, scale));
            }
        }
        None
    }
}

/// The extent of a picture of a source that may be missing.
pub open spec fn dims_in(src: Option<PictSource>, number: u16) -> Option<(u32, u32)> {
    match src {
        Some(s) => s.dims_of(number),
        None => None,
    }
}

/// The pictures on the screen of a source that may be missing.
pub open spec fn art_in(src: Option<PictSource>, scale: (u32, u32)) -> Map<u16, Grid> {
    match src {
        Some(s) => s.screen_art(scale),
        None => Map::empty(),
    }
}

/// Whether a source that may be missing is well formed.
pub open spec fn source_wf(src: Option<PictSource>, scale: (u32, u32)) -> bool {
    src matches Some(s) ==> s.wf(scale)
}

/// The extent of a picture of a source that may be missing.
pub fn dims_from(src: &Option<PictSource>, number: u16) -> (r: Option<(u32, u32)>)
    ensures
        r == dims_in(*src, number),
{
    match src {
        Some(s) => s.dims(number),
        None => None,
    }
}

/// A picture on the screen of a source that may be missing.
pub fn art_from(src: &Option<PictSource>, number: u16, scale: (u32, u32)) -> (r: Option<Raster>)
    requires
        source_wf(*src, scale),
    ensures
        r is Some <==> art_in(*src, scale).dom().contains(number),
        r matches Some(i) ==> i.wf() && i.grid() == art_in(*src, scale)[number],
{
    match src {
        Some(s) => s.image_under_current_palette(number, scale),
        None => None,
    }
}

// ── Laws ──────────────────────────────────────────────────────────────────────
/// A picture is found under its number: its extent is its own, the width first, and it is
/// drawn from its own pixels, where it has some. A number that no picture has stands for
/// nothing.
pub proof fn a_picture_is_found_under_its_number(
    src: &PictSource,
    number: u16,
    k: int,
    scale: (u32, u32),
)
    requires
        0 <= k <= src.pictures@.len(),
        k < src.pictures@.len() ==> src.pictures@[k].number == number,
        forall|i: int| 0 <= i < k ==> (#[trigger] src.pictures@[i]).number != number,
    ensures
        k == src.pictures@.len() ==> src.dims_of(number) is None && !src.screen_art(
            scale,
        ).dom().contains(number),
        k < src.pictures@.len() ==> {
            let p = src.pictures@[k];
            &&& src.dims_of(number) == Some((p.width, p.height))
            &&& src.screen_art(scale).dom().contains(number) <==> p.image is Some
            &&& p.image matches Some(i) ==> src.screen_art(scale)[number] == scaled_art(
                i.grid(),
                i.width,
                i.height,
                scale,
            )
        },
        dims_in(None, number) is None,
        dims_in(Some(*src), number) == src.dims_of(number),
        art_in(Some(*src), scale) == src.screen_art(scale),
{
    lemma_find_pict(src.pictures@, number, k);
}

} // verus!
