//! The line network: a first line across a rectangle, then branches, each
//! springing at a right angle from a line placed before it.
//!
//! Roads over the lot and walls inside a building are both such networks.

use crate::error::{fails_as, LayoutError, MAX_ATTEMPTS};
use crate::geometry::{opposite_orientation, Line, Orientation, Point};
use crate::random::{coin_flip, uniform_in};
use crate::rectangle::Rectangle;
use rand::rngs::ThreadRng;
use vstd::prelude::*;

verus! {

/// `l` stops a branch of orientation `o` that passes through `p`: it runs
/// across the branch and reaches the row or column of `p`.
pub open spec fn bars(l: Line, o: Orientation, p: Point) -> bool {
    l.orientation != o && l.spans(l.orientation.along(p))
}

/// A line other than the one at `host` passes through `p`.
pub open spec fn crossed(lines: Seq<Line>, host: int, p: Point) -> bool {
    exists|k: int| 0 <= k < lines.len() && k != host && (#[trigger] lines[k]).covers(p)
}

/// `low` is how far a branch of orientation `o` through `p` may reach
/// toward lesser coordinates: the nearest line that bars it on that side,
/// or the edge of the rectangle where there is none.
pub open spec fn is_low_bound(
    rect: Rectangle,
    lines: Seq<Line>,
    o: Orientation,
    p: Point,
    low: int,
) -> bool {
    &&& rect.low(o) <= low
    &&& low == rect.low(o) || exists|k: int|
        0 <= k < lines.len() && bars(#[trigger] lines[k], o, p) && lines[k].fixed() == low && low
            < o.along(p)
    &&& forall|k: int|
        0 <= k < lines.len() && bars(#[trigger] lines[k], o, p) && lines[k].fixed() < o.along(p)
            ==> lines[k].fixed() <= low
}

/// `high` is how far a branch of orientation `o` through `p` may reach
/// toward greater coordinates.
pub open spec fn is_high_bound(
    rect: Rectangle,
    lines: Seq<Line>,
    o: Orientation,
    p: Point,
    high: int,
) -> bool {
    &&& high <= rect.high(o)
    &&& high == rect.high(o) || exists|k: int|
        0 <= k < lines.len() && bars(#[trigger] lines[k], o, p) && lines[k].fixed() == high
            && o.along(p) < high
    &&& forall|k: int|
        0 <= k < lines.len() && bars(#[trigger] lines[k], o, p) && o.along(p) < lines[k].fixed()
            ==> high <= lines[k].fixed()
}

/// The direction a branch must take from the coordinate `c` between its
/// bounds: toward `high` (`Some(false)`) where `low` is closer than
/// `margin`, else toward `low` (`Some(true)`) where `high` is; `None` where
/// both are far enough and the choice is free.
pub open spec fn spec_forced_direction(c: int, low: int, high: int, margin: int) -> Option<bool> {
    if c - low < margin {
        Some(false)
    } else if high - c < margin {
        Some(true)
    } else {
        None
    }
}

/// The branch of orientation `o` through `p`: from `low` up to, and not
/// including, `p` if `toward_low`; else from `p` to `high`, both included.
pub open spec fn spec_branch_line(
    o: Orientation,
    p: Point,
    low: int,
    high: int,
    toward_low: bool,
) -> Line {
    if toward_low {
        Line::spec_on_axis(o, low, o.across(p), o.along(p) - low)
    } else {
        Line::spec_on_axis(o, o.along(p), o.across(p), high - o.along(p) + 1)
    }
}

/// `new` is the branch that springs from the line at `host`, `d` cells
/// from its origin, and runs toward `low` or toward `high` between these
/// bounds.
pub open spec fn branch_via(
    rect: Rectangle,
    earlier: Seq<Line>,
    margin: int,
    new: Line,
    host: int,
    d: int,
    low: int,
    high: int,
    toward_low: bool,
) -> bool {
    let h = earlier[host];
    let o = h.orientation.flipped();
    let p = h.spec_point_at(d);
    &&& 0 <= host < earlier.len()
    &&& margin <= d < h.length - margin
    &&& !crossed(earlier, host, p)
    &&& is_low_bound(rect, earlier, o, p, low)
    &&& is_high_bound(rect, earlier, o, p, high)
    &&& spec_forced_direction(o.along(p), low, high, margin) matches Some(forced) ==> toward_low
        == forced
    &&& new == spec_branch_line(o, p, low, high, toward_low)
}

/// `new` may follow the lines `earlier` in a network over `rect`: it
/// springs from one of them at a point at least `margin` cells from both
/// ends of that line, through which no other line passes, and runs from
/// there to the nearest line that bars it or to the edge of `rect`, on the
/// side that leaves `margin` cells, or on either side where both do.
pub open spec fn is_branch(rect: Rectangle, earlier: Seq<Line>, margin: int, new: Line) -> bool {
    exists|host: int, d: int, low: int, high: int, toward_low: bool| #[trigger]
        branch_via(rect, earlier, margin, new, host, d, low, high, toward_low)
}

/// `b` meets the point `p` with one of its ends: it lies in the row or
/// column of `p` and starts at `p` or ends just before it.
pub open spec fn meets(b: Line, p: Point) -> bool {
    &&& b.fixed() == b.orientation.across(p)
    &&& b.start() == b.orientation.along(p) || b.end() == b.orientation.along(p)
}

/// `b` springs at a right angle from a cell of `a` that has at least
/// `margin` cells of `a` on either side.
pub open spec fn springs_from(b: Line, a: Line, margin: int) -> bool {
    &&& b.orientation == a.orientation.flipped()
    &&& exists|d: int| margin <= d < a.length - margin && meets(b, #[trigger] a.spec_point_at(d))
}

impl Rectangle {
    /// The rectangle is well-formed, and its width and height fit the
    /// length of a line.
    pub open spec fn sized(self) -> bool {
        &&& self.wf()
        &&& self.spec_width() <= u32::MAX
        &&& self.spec_height() <= u32::MAX
    }

    /// A first line fits: the rectangle is more than `2 * margin` cells
    /// wide or high.
    pub open spec fn admits_lines(self, margin: int) -> bool {
        &&& self.sized()
        &&& self.spec_width() > 2 * margin || self.spec_height() > 2 * margin
    }

    /// The orientation of the first line: horizontal where the height is
    /// at most `2 * margin`, vertical where the width is, else as the coin
    /// fell.
    pub open spec fn spec_first_orientation(self, margin: int, coin: bool) -> Orientation {
        if self.spec_height() <= 2 * margin {
            Orientation::Horiz
        } else if self.spec_width() <= 2 * margin {
            Orientation::Vert
        } else if coin {
            Orientation::Vert
        } else {
            Orientation::Horiz
        }
    }

    /// The half-open range of places, across its axis, for a first line of
    /// orientation `o`: those at least `margin` from both edges. `None`
    /// where there is no such place.
    pub open spec fn spec_first_range(self, margin: int, o: Orientation) -> Option<(int, int)> {
        let low = self.low(o.flipped());
        let high = self.high(o.flipped());
        if low + margin < high - margin {
            Some((low + margin, high - margin))
        } else {
            None
        }
    }

    /// The line of orientation `o` from edge to edge of the rectangle, at
    /// `position` across its axis.
    pub open spec fn spec_spanning_line(self, o: Orientation, position: int) -> Line {
        Line::spec_on_axis(o, self.low(o), position, self.extent(o))
    }

    /// `l` may be the first line of a network over the rectangle: it spans
    /// the rectangle, in an orientation that the sizes allow, at a place
    /// within the range for it, or on the low edge where that range is
    /// empty.
    pub open spec fn is_first_line(self, margin: int, l: Line) -> bool {
        &&& exists|coin: bool| l.orientation == #[trigger] self.spec_first_orientation(margin, coin)
        &&& match self.spec_first_range(margin, l.orientation) {
            Some((from, to)) => from <= l.fixed() < to,
            None => l.fixed() == self.low(l.orientation.flipped()),
        }
        &&& l == self.spec_spanning_line(l.orientation, l.fixed())
    }

    /// `lines` is a network over the rectangle: a first line, then
    /// branches, each of the lines before it.
    pub open spec fn is_network(self, margin: int, lines: Seq<Line>) -> bool {
        &&& lines.len() > 0 ==> self.is_first_line(margin, lines[0])
        &&& forall|i: int|
            1 <= i < lines.len() ==> #[trigger] is_branch(self, lines.take(i), margin, lines[i])
    }

    pub fn can_hold_lines(&self, margin: u32) -> (yes: bool)
        ensures
            yes == self.admits_lines(margin as int),
    {
        if self.x1 > self.x2 || self.y1 > self.y2 {
            return false;
        }
        let w: u64 = (self.x2 - self.x1) as u64 + 1;
        let h: u64 = (self.y2 - self.y1) as u64 + 1;
        let twice: u64 = 2 * (margin as u64);
        w <= 0xffff_ffff && h <= 0xffff_ffff && (w > twice || h > twice)
    }

    pub fn first_line_orientation(&self, margin: u32, coin: bool) -> (o: Orientation)
        requires
            self.wf(),
        ensures
            o == self.spec_first_orientation(margin as int, coin),
    {
        let w: u64 = (self.x2 - self.x1) as u64 + 1;
        let h: u64 = (self.y2 - self.y1) as u64 + 1;
        let twice: u64 = 2 * (margin as u64);
        if h <= twice {
            Orientation::Horiz
        } else if w <= twice {
            Orientation::Vert
        } else if coin {
            Orientation::Vert
        } else {
            Orientation::Horiz
        }
    }

    pub fn first_line_range(&self, margin: u32, o: Orientation) -> (range: Option<(u32, u32)>)
        ensures
            match range {
                Some((from, to)) => self.spec_first_range(margin as int, o) == Some(
                    (from as int, to as int),
                ),
                None => self.spec_first_range(margin as int, o) is None,
            },
    {
        let low: u32 = self.low_edge(opposite_orientation(o));
        let high: u32 = self.high_edge(opposite_orientation(o));
        if (low as u64) + 2 * (margin as u64) < high as u64 {
            Some((low + margin, high - margin))
        } else {
            None
        }
    }

    pub fn spanning_line(&self, o: Orientation, position: u32) -> (line: Line)
        requires
            self.sized(),
        ensures
            line == self.spec_spanning_line(o, position as int),
            line.orientation == o,
            line.fixed() == position,
            line.start() == self.low(o),
            line.length == self.extent(o),
    {
        let length: u32 = self.high_edge(o) - self.low_edge(o) + 1;
        Line::on_axis(o, self.low_edge(o), position, length)
    }

    /// How far a branch of orientation `o` through `p` may reach on either
    /// side, given the lines placed so far; `None` where one of them, other
    /// than the one at `origin`, passes through `p`.
    pub fn growth_bounds(&self, lines: &Vec<Line>, origin: usize, o: Orientation, p: &Point) -> (bounds:
        Option<(u32, u32)>)
        ensures
            bounds is None <==> crossed(lines@, origin as int, *p),
            bounds matches Some((low, high)) ==> {
                &&& is_low_bound(*self, lines@, o, *p, low as int)
                &&& is_high_bound(*self, lines@, o, *p, high as int)
            },
    {
        let c: u32 = p.coord_along(o);
        let mut low_bound: u32 = self.low_edge(o);
        let mut high_bound: u32 = self.high_edge(o);
        let ghost mut low_from: int = 0;
        let ghost mut high_from: int = 0;
        let mut k: usize = 0;
        while k < lines.len()
            invariant
                k <= lines.len(),
                c == o.along(*p),
                forall|j: int| 0 <= j < k && j != origin ==> !(#[trigger] lines@[j]).covers(*p),
                self.low(o) <= low_bound,
                low_bound == self.low(o) || (0 <= low_from < k && bars(lines@[low_from], o, *p)
                    && lines@[low_from].fixed() == low_bound && low_bound < c),
                forall|j: int|
                    0 <= j < k && bars(#[trigger] lines@[j], o, *p) && lines@[j].fixed() < c
                        ==> lines@[j].fixed() <= low_bound,
                high_bound <= self.high(o),
                high_bound == self.high(o) || (0 <= high_from < k && bars(lines@[high_from], o, *p)
                    && lines@[high_from].fixed() == high_bound && c < high_bound),
                forall|j: int|
                    0 <= j < k && bars(#[trigger] lines@[j], o, *p) && c < lines@[j].fixed()
                        ==> high_bound <= lines@[j].fixed(),
            decreases lines.len() - k,
        {
            let other = lines[k];
            if k != origin && other.point_intersects(p) {
                return None;
            }
            if other.orientation != o {
                let reach: u32 = p.coord_along(other.orientation);
                let from: u32 = other.start_coord();
                if reach >= from && reach - from < other.length {
                    let at: u32 = other.fixed_coord();
                    if at < c && at > low_bound {
                        low_bound = at;
                        proof {
                            low_from = k as int;
                        }
                    } else if at > c && at < high_bound {
                        high_bound = at;
                        proof {
                            high_from = k as int;
                        }
                    }
                }
            }
            k += 1;
        }
        proof {
            if low_bound != self.low(o) {
                assert(bars(lines@[low_from], o, *p));
            }
            if high_bound != self.high(o) {
                assert(bars(lines@[high_from], o, *p));
            }
        }
        Some((low_bound, high_bound))
    }
}

pub fn forced_direction(c: u32, low: u32, high: u32, margin: u32) -> (forced: Option<bool>)
    ensures
        forced == spec_forced_direction(c as int, low as int, high as int, margin as int),
{
    if (c as u64) < low as u64 + margin as u64 {
        Some(false)
    } else if (high as u64) < c as u64 + margin as u64 {
        Some(true)
    } else {
        None
    }
}

pub fn branch_line(o: Orientation, p: &Point, low: u32, high: u32, toward_low: bool) -> (line: Line)
    requires
        low <= o.along(*p) <= high,
        high - o.along(*p) < u32::MAX,
    ensures
        line == spec_branch_line(o, *p, low as int, high as int, toward_low),
        line.orientation == o,
        meets(line, *p),
        low <= line.start(),
        line.end() <= high + 1,
{
    let c: u32 = p.coord_along(o);
    if toward_low {
        Line::on_axis(o, low, p.coord_across(o), c - low)
    } else {
        Line::on_axis(o, c, p.coord_across(o), high - c + 1)
    }
}

/// A branch lies within the rectangle when the lines before it do.
pub proof fn lemma_branch_stays_inside(
    rect: Rectangle,
    earlier: Seq<Line>,
    margin: int,
    new: Line,
)
    requires
        rect.sized(),
        0 <= margin,
        forall|i: int| 0 <= i < earlier.len() ==> rect.holds(#[trigger] earlier[i]),
        is_branch(rect, earlier, margin, new),
    ensures
        rect.holds(new),
{
    let (host, d, low, high, toward_low) = choose|
        host: int,
        d: int,
        low: int,
        high: int,
        toward_low: bool,
    | #[trigger] branch_via(rect, earlier, margin, new, host, d, low, high, toward_low);
    let h = earlier[host];
    assert(rect.holds(h));
    let p = h.spec_point_at(d);
    assert(h.covers(p));
    assert(rect.contains(p));
}

/// A branch springs from one of the lines before it, at a cell with at
/// least `margin` cells of that line on either side.
pub proof fn lemma_branch_springs(rect: Rectangle, earlier: Seq<Line>, margin: int, new: Line)
    requires
        0 <= margin,
        forall|i: int| 0 <= i < earlier.len() ==> (#[trigger] earlier[i]).fits(),
        is_branch(rect, earlier, margin, new),
    ensures
        exists|j: int| 0 <= j < earlier.len() && springs_from(new, #[trigger] earlier[j], margin),
{
    let (host, d, low, high, toward_low) = choose|
        host: int,
        d: int,
        low: int,
        high: int,
        toward_low: bool,
    | #[trigger] branch_via(rect, earlier, margin, new, host, d, low, high, toward_low);
    let h = earlier[host];
    assert(h.fits());
    let p = h.spec_point_at(d);
    assert(meets(new, p));
    assert(springs_from(new, earlier[host], margin));
}

/// A network with one more branch is a network.
pub proof fn lemma_network_grows(rect: Rectangle, margin: int, lines: Seq<Line>, new: Line)
    requires
        lines.len() > 0,
        rect.is_network(margin, lines),
        is_branch(rect, lines, margin, new),
    ensures
        rect.is_network(margin, lines.push(new)),
{
    let longer = lines.push(new);
    assert forall|i: int| 1 <= i < longer.len() implies #[trigger] is_branch(
        rect,
        longer.take(i),
        margin,
        longer[i],
    ) by {
        if i < lines.len() {
            assert(longer.take(i) =~= lines.take(i));
            assert(is_branch(rect, lines.take(i), margin, lines[i]));
        } else {
            assert(longer.take(i) =~= lines);
        }
    }
}

/// The lines of a network that come first are a network.
pub proof fn lemma_network_prefix(rect: Rectangle, margin: int, lines: Seq<Line>, n: int)
    requires
        0 <= n <= lines.len(),
        rect.is_network(margin, lines),
    ensures
        rect.is_network(margin, lines.take(n)),
{
    let shorter = lines.take(n);
    assert forall|i: int| 1 <= i < shorter.len() implies #[trigger] is_branch(
        rect,
        shorter.take(i),
        margin,
        shorter[i],
    ) by {
        assert(shorter.take(i) =~= lines.take(i));
        assert(is_branch(rect, lines.take(i), margin, lines[i]));
    }
}

/// Every line of a network lies within the rectangle it was made over.
pub proof fn lemma_network_stays_inside(rect: Rectangle, margin: int, lines: Seq<Line>)
    requires
        rect.sized(),
        0 <= margin,
        rect.is_network(margin, lines),
    ensures
        forall|i: int| 0 <= i < lines.len() ==> rect.holds(#[trigger] lines[i]),
    decreases lines.len(),
{
    if lines.len() > 0 {
        let n = lines.len() - 1;
        let shorter = lines.take(n);
        lemma_network_prefix(rect, margin, lines, n);
        lemma_network_stays_inside(rect, margin, shorter);
        if n > 0 {
            assert(is_branch(rect, lines.take(n), margin, lines[n]));
            lemma_branch_stays_inside(rect, shorter, margin, lines[n]);
        }
        assert forall|i: int| 0 <= i < lines.len() implies rect.holds(#[trigger] lines[i]) by {
            if i < n {
                assert(shorter[i] == lines[i]);
            }
        }
    }
}

/// Every line of a network but the first springs from a line placed
/// before it, at a cell with at least `margin` cells of that line on
/// either side.
pub proof fn lemma_network_springs(rect: Rectangle, margin: int, lines: Seq<Line>)
    requires
        rect.sized(),
        0 <= margin,
        rect.is_network(margin, lines),
    ensures
        forall|i: int|
            1 <= i < lines.len() ==> exists|j: int|
                0 <= j < i && springs_from(#[trigger] lines[i], lines[j], margin),
{
    lemma_network_stays_inside(rect, margin, lines);
    assert forall|i: int| 1 <= i < lines.len() implies exists|j: int|
        0 <= j < i && springs_from(#[trigger] lines[i], lines[j], margin) by {
        let earlier = lines.take(i);
        assert(is_branch(rect, earlier, margin, lines[i]));
        assert forall|k: int| 0 <= k < earlier.len() implies (#[trigger] earlier[k]).fits() by {
            assert(rect.holds(lines[k]));
        }
        lemma_branch_springs(rect, earlier, margin, lines[i]);
        let j = choose|j: int|
            0 <= j < earlier.len() && springs_from(lines[i], #[trigger] earlier[j], margin);
        assert(earlier[j] == lines[j]);
    }
}

impl Rectangle {
    /// One attempt at a branch off the lines placed so far: a line is
    /// drawn among them and, unless it is too short, a point on it at least
    /// `line_margin` from both of its ends. The branch runs from that point
    /// unless another line passes through it.
    fn try_branch(&self, lines: &Vec<Line>, line_margin: u32, rng: &mut ThreadRng) -> (branch:
        Option<Line>)
        requires
            self.sized(),
            0 < lines@.len() <= u32::MAX,
            forall|i: int| 0 <= i < lines@.len() ==> self.holds(#[trigger] lines@[i]),
        ensures
            branch matches Some(line) ==> is_branch(*self, lines@, line_margin as int, line),
            lines@.len() == 1 && lines@[0].length > 2 * line_margin ==> branch is Some,
    {
        let origin: usize = uniform_in(rng, 0, lines.len() as u32) as usize;
        let host = lines[origin];
        if host.length as u64 <= 2 * (line_margin as u64) {
            return None;
        }
        assert(self.holds(host));
        let o = opposite_orientation(host.orientation);
        let p = host.find_point_within(line_margin, rng);
        assert(self.contains(p));
        match self.growth_bounds(lines, origin, o, &p) {
            None => None,
            Some((low, high)) => {
                let c: u32 = p.coord_along(o);
                let toward_low = match forced_direction(c, low, high, line_margin) {
                    Some(forced) => forced,
                    None => coin_flip(rng),
                };
                let line = branch_line(o, &p, low, high, toward_low);
                proof {
                    let d = host.orientation.along(p) - host.start();
                    assert(p == host.spec_point_at(d));
                    assert(branch_via(
                        *self,
                        lines@,
                        line_margin as int,
                        line,
                        origin as int,
                        d,
                        low as int,
                        high as int,
                        toward_low,
                    ));
                }
                Some(line)
            },
        }
    }

    /// A network of `line_count` lines over the rectangle.
    ///
    /// The first line spans the rectangle. Its orientation is a coin flip,
    /// unless the sizes force it; its place is drawn among those at least
    /// `line_margin` from both edges. Every later line springs from a line
    /// drawn among those placed, at a point drawn on it at least
    /// `line_margin` from both of its ends; a draw is made again, until the
    /// attempts run out, where that line is too short or another line
    /// passes through the point.
    ///
    /// Where no line is asked for, the list is empty. Otherwise the
    /// rectangle must admit a first line. The first line is then always
    /// placed, and so is the second, which finds the first one long enough
    /// and no other line in its way.
    pub fn divide_with_lines(&self, line_count: u32, line_margin: u32, rng: &mut ThreadRng) -> (network:
        Result<Vec<Line>, LayoutError>)
        ensures
            line_count == 0 ==> network is Ok,
            line_count > 0 && !self.admits_lines(line_margin as int) ==> fails_as(
                network,
                LayoutError::Infeasible,
            ),
            line_count > 0 && self.admits_lines(line_margin as int) ==> network is Ok || fails_as(
                network,
                LayoutError::PlacementFailed,
            ),
            line_count <= 2 && self.admits_lines(line_margin as int) ==> network is Ok,
            network matches Ok(lines) ==> {
                &&& lines@.len() == line_count
                &&& self.is_network(line_margin as int, lines@)
                &&& forall|i: int| 0 <= i < lines@.len() ==> self.holds(#[trigger] lines@[i])
                &&& forall|i: int|
                    1 <= i < lines@.len() ==> exists|j: int|
                        0 <= j < i && springs_from(#[trigger] lines@[i], lines@[j], line_margin as int)
                &&& lines@.len() > 0 ==> lines@[0].length == self.extent(lines@[0].orientation)
            },
    {
        let mut lines: Vec<Line> = Vec::new();
        if line_count == 0 {
            return Ok(lines);
        }
        if !self.can_hold_lines(line_margin) {
            return Err(LayoutError::Infeasible);
        }
        let coin = coin_flip(rng);
        let first_orientation = self.first_line_orientation(line_margin, coin);
        let position: u32 = match self.first_line_range(line_margin, first_orientation) {
            Some((from, to)) => uniform_in(rng, from, to),
            None => self.low_edge(opposite_orientation(first_orientation)),
        };
        let first = self.spanning_line(first_orientation, position);
        assert(first.orientation == self.spec_first_orientation(line_margin as int, coin));
        lines.push(first);
        while lines.len() < line_count as usize
            invariant
                self.admits_lines(line_margin as int),
                1 <= lines@.len() <= line_count,
                self.is_network(line_margin as int, lines@),
                forall|i: int| 0 <= i < lines@.len() ==> self.holds(#[trigger] lines@[i]),
                lines@[0].length == self.extent(lines@[0].orientation),
                lines@[0].length > 2 * line_margin,
            decreases line_count - lines@.len(),
        {
            let mut attempts: u32 = 0;
            let mut branch: Option<Line> = None;
            while branch.is_none() && attempts < MAX_ATTEMPTS
                invariant
                    self.admits_lines(line_margin as int),
                    1 <= lines@.len() < line_count,
                    forall|i: int| 0 <= i < lines@.len() ==> self.holds(#[trigger] lines@[i]),
                    branch matches Some(line) ==> is_branch(*self, lines@, line_margin as int, line),
                    lines@[0].length > 2 * line_margin,
                    lines@.len() == 1 ==> attempts == 0 || branch is Some,
                decreases MAX_ATTEMPTS - attempts,
            {
                attempts += 1;
                branch = self.try_branch(&lines, line_margin, rng);
            }
            match branch {
                None => {
                    return Err(LayoutError::PlacementFailed);
                },
                Some(line) => {
                    proof {
                        lemma_branch_stays_inside(*self, lines@, line_margin as int, line);
                        lemma_network_grows(*self, line_margin as int, lines@, line);
                    }
                    lines.push(line);
                },
            }
        }
        proof {
            lemma_network_springs(*self, line_margin as int, lines@);
        }
        Ok(lines)
    }
}

} // verus!
