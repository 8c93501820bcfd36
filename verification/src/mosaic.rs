//! The counting side of the mosaic layout: how many images of each
//! orientation a gallery has, and which way the next split should go so that
//! the layout's cells match them.

use vstd::prelude::*;

verus! {

/// The orientation of an image or a layout cell.
#[derive(Clone, Copy, Debug, PartialEq, Eq)]
pub enum Orientation {
    Portrait,
    Landscape,
    Square,
}

/// How many images of each orientation a gallery has.
#[derive(Clone, Copy, Debug, PartialEq, Eq)]
pub struct OrientationBias {
    pub num_portrait: usize,
    pub num_landscape: usize,
    pub num_square: usize,
}

impl Default for OrientationBias {
    fn default() -> (r: Self)
        ensures
            r.num_portrait == 0,
            r.num_landscape == 0,
            r.num_square == 0,
    {
        OrientationBias { num_portrait: 0, num_landscape: 0, num_square: 0 }
    }
}

/// How many of `s` have orientation `o`.
pub open spec fn count_of(s: Seq<Orientation>, o: Orientation) -> nat
    decreases s.len(),
{
    if s.len() == 0 {
        0
    } else {
        count_of(s.drop_last(), o) + if s.last() == o {
            1nat
        } else {
            0nat
        }
    }
}

/// The counts of the three orientations add up to the length.
proof fn lemma_counts_sum(s: Seq<Orientation>)
    ensures
        count_of(s, Orientation::Portrait) + count_of(s, Orientation::Landscape) + count_of(
            s,
            Orientation::Square,
        ) == s.len(),
    decreases s.len(),
{
    if s.len() > 0 {
        lemma_counts_sum(s.drop_last());
    }
}

/// The number of images of each orientation.
pub fn calculate_orientation_bias(orientations: &Vec<Orientation>) -> (r: OrientationBias)
    ensures
        r.num_portrait == count_of(orientations@, Orientation::Portrait),
        r.num_landscape == count_of(orientations@, Orientation::Landscape),
        r.num_square == count_of(orientations@, Orientation::Square),
{
    let mut r = OrientationBias { num_portrait: 0, num_landscape: 0, num_square: 0 };
    let mut i: usize = 0;
    assert(orientations@.take(0) =~= Seq::<Orientation>::empty());
    while i < orientations.len()
        invariant
            i <= orientations@.len(),
            r.num_portrait == count_of(orientations@.take(i as int), Orientation::Portrait),
            r.num_landscape == count_of(orientations@.take(i as int), Orientation::Landscape),
            r.num_square == count_of(orientations@.take(i as int), Orientation::Square),
        decreases orientations@.len() - i,
    {
        let o = orientations[i];
        proof {
            assert(orientations@.take(i + 1).drop_last() =~= orientations@.take(i as int));
            lemma_counts_sum(orientations@.take(i as int));
        }
        match o {
            Orientation::Portrait => r.num_portrait = r.num_portrait + 1,
            Orientation::Landscape => r.num_landscape = r.num_landscape + 1,
            Orientation::Square => r.num_square = r.num_square + 1,
        }
        i = i + 1;
    }
    assert(orientations@.take(orientations@.len() as int) =~= orientations@);
    r
}

/// Which way the next split should go, and how strongly: the deficit of the
/// orientation asked for out of the total deficit.
#[derive(Clone, Copy, Debug, PartialEq, Eq)]
pub struct SplitPreference {
    /// A horizontal split (making wide cells) rather than a vertical one.
    pub prefer_horizontal: bool,
    pub deficit: usize,
    pub total_deficit: usize,
}

/// How many more cells of an orientation are wanted.
pub open spec fn deficit(target: usize, current: usize) -> int {
    if target > current {
        target - current
    } else {
        0
    }
}

/// Tracks how many cells of each orientation the layout has made against
/// how many images of each orientation there are.
#[derive(Clone, Copy, Debug, PartialEq, Eq)]
pub struct OrientationTracker {
    pub target_portrait: usize,
    pub target_landscape: usize,
    pub target_square: usize,
    pub current_portrait: usize,
    pub current_landscape: usize,
    pub current_square: usize,
}

impl OrientationTracker {
    /// A tracker for the given numbers of images, with no cells made.
    pub fn new(bias: &OrientationBias) -> (r: Self)
        ensures
            r.target_portrait == bias.num_portrait,
            r.target_landscape == bias.num_landscape,
            r.target_square == bias.num_square,
            r.current_portrait == 0,
            r.current_landscape == 0,
            r.current_square == 0,
    {
        OrientationTracker {
            target_portrait: bias.num_portrait,
            target_landscape: bias.num_landscape,
            target_square: bias.num_square,
            current_portrait: 0,
            current_landscape: 0,
            current_square: 0,
        }
    }

    /// The number of cells of orientation `o` made so far.
    pub open spec fn current(self, o: Orientation) -> usize {
        match o {
            Orientation::Portrait => self.current_portrait,
            Orientation::Landscape => self.current_landscape,
            Orientation::Square => self.current_square,
        }
    }

    /// Counts the cells made, by orientation.
    pub fn update_from_rectangles(&mut self, cells: &Vec<Orientation>)
        requires
            old(self).current_portrait + count_of(cells@, Orientation::Portrait) <= usize::MAX,
            old(self).current_landscape + count_of(cells@, Orientation::Landscape) <= usize::MAX,
            old(self).current_square + count_of(cells@, Orientation::Square) <= usize::MAX,
        ensures
            final(self).current_portrait == old(self).current_portrait + count_of(
                cells@,
                Orientation::Portrait,
            ),
            final(self).current_landscape == old(self).current_landscape + count_of(
                cells@,
                Orientation::Landscape,
            ),
            final(self).current_square == old(self).current_square + count_of(
                cells@,
                Orientation::Square,
            ),
            final(self).target_portrait == old(self).target_portrait,
            final(self).target_landscape == old(self).target_landscape,
            final(self).target_square == old(self).target_square,
    {
        let counts = calculate_orientation_bias(cells);
        self.current_portrait = self.current_portrait + counts.num_portrait;
        self.current_landscape = self.current_landscape + counts.num_landscape;
        self.current_square = self.current_square + counts.num_square;
    }

    /// Which way to split next: vertically (tall cells) when portraits are
    /// most wanted, horizontally (wide cells) when landscapes are, with the
    /// deficit and the total deficit that weigh the preference; no
    /// preference when nothing is wanted or no orientation is wanted most.
    pub fn get_split_preference(&self) -> (r: Option<SplitPreference>)
        requires
            self.target_portrait + self.target_landscape + self.target_square <= usize::MAX,
        ensures
            ({
                let p = deficit(self.target_portrait, self.current_portrait);
                let l = deficit(self.target_landscape, self.current_landscape);
                let q = deficit(self.target_square, self.current_square);
                let total = p + l + q;
                if total == 0 {
                    r is None
                } else if p > l && p > q {
                    r == Some(
                        SplitPreference {
                            prefer_horizontal: false,
                            deficit: p as usize,
                            total_deficit: total as usize,
                        },
                    )
                } else if l > p && l > q {
                    r == Some(
                        SplitPreference {
                            prefer_horizontal: true,
                            deficit: l as usize,
                            total_deficit: total as usize,
                        },
                    )
                } else {
                    r is None
                }
            }),
    {
        let p = self.target_portrait.saturating_sub(self.current_portrait);
        let l = self.target_landscape.saturating_sub(self.current_landscape);
        let q = self.target_square.saturating_sub(self.current_square);
        let total = p + l + q;
        if total == 0 {
            None
        } else if p > l && p > q {
            Some(SplitPreference { prefer_horizontal: false, deficit: p, total_deficit: total })
        } else if l > p && l > q {
            Some(SplitPreference { prefer_horizontal: true, deficit: l, total_deficit: total })
        } else {
            None
        }
    }
}

} // verus!
