//! Design-axis bookkeeping for the font model.
//!
//! A font's sources carry, per master, a location on each design axis.
//! After loading, an axis's range is tightened to what the masters
//! actually cover, and an axis that carries a designspace-to-userspace
//! mapping gets its bounds translated through that mapping.  Coordinates
//! are integer design units, kept within [`COORD_BOUND`] so that the
//! piecewise-linear interpolation below stays exact.

use vstd::prelude::*;

use crate::table::str_eq;

verus! {

/// Largest coordinate magnitude the axis arithmetic admits.
pub const COORD_BOUND: i64 = 0x4000_0000;

/// A location in design space: a value per axis tag.  Lookup finds the
/// first entry with the tag; a missing tag reads as 0.
pub struct Location {
    /// `(tag, value)` pairs, most recently inserted first.
    pub entries: Vec<(String, i64)>,
}

/// The value filed under `tag`, or 0 when the tag is absent.
pub open spec fn spec_lookup(entries: Seq<(String, i64)>, tag: Seq<char>) -> i64
    decreases entries.len(),
{
    if entries.len() == 0 {
        0
    } else if entries[0].0@ == tag {
        entries[0].1
    } else {
        spec_lookup(entries.drop_first(), tag)
    }
}

impl Location {
    /// An empty location.
    pub fn new() -> (r: Location)
        ensures
            r.entries@ == Seq::<(String, i64)>::empty(),
    {
        Location { entries: Vec::new() }
    }

    /// Files `value` under `tag`, shadowing any earlier entry.
    pub fn insert(&mut self, tag: String, value: i64)
        ensures
            final(self).entries@ == old(self).entries@.insert(0, (tag, value)),
            spec_lookup(final(self).entries@, tag@) == value,
    {
        self.entries.insert(0, (tag, value));
        proof {
            assert(self.entries@[0] == (tag, value));
        }
    }

    /// The value filed under `tag`, or 0 when the tag is absent.
    pub fn get(&self, tag: &str) -> (r: i64)
        ensures
            r == spec_lookup(self.entries@, tag@),
    {
        let mut i: usize = 0;
        proof {
            assert(self.entries@.skip(0) =~= self.entries@);
        }
        while i < self.entries.len()
            invariant
                i <= self.entries@.len(),
                spec_lookup(self.entries@, tag@) == spec_lookup(
                    self.entries@.skip(i as int),
                    tag@,
                ),
            decreases self.entries@.len() - i,
        {
            proof {
                assert(self.entries@.skip(i as int)[0] == self.entries@[i as int]);
                assert(self.entries@.skip(i as int).drop_first() =~= self.entries@.skip(i + 1));
            }
            if str_eq(self.entries[i].0.as_str(), tag) {
                return self.entries[i].1;
            }
            i = i + 1;
        }
        proof {
            assert(self.entries@.skip(self.entries@.len() as int) =~= Seq::<(
                String,
                i64,
            )>::empty());
        }
        0
    }
}

/// One master design: an identified location in design space.
pub struct Master {
    /// The master's display name.
    pub name: String,
    /// The master's unique identifier.
    pub id: String,
    /// Where the master sits on each axis.
    pub location: Location,
}

impl Master {
    /// A master at the given location.
    pub fn new(name: String, id: String, location: Location) -> (r: Master)
        ensures
            r.name == name,
            r.id == id,
            r.location == location,
    {
        Master { name, id, location }
    }
}

/// One axis of variation.
pub struct Axis {
    /// The axis's display name.
    pub name: String,
    /// The axis's 4-letter tag.
    pub tag: String,
    /// Whether user interfaces should hide the axis.
    pub hidden: bool,
    /// Smallest coordinate the axis covers, once known.
    pub min: Option<i64>,
    /// Largest coordinate the axis covers, once known.
    pub max: Option<i64>,
    /// The axis's default coordinate, once known.
    pub default: Option<i64>,
    /// Designspace-to-userspace mapping knots, as `(userspace,
    /// designspace)` pairs, if the axis has one.
    pub map: Option<Vec<(i64, i64)>>,
}

/// A well-formed mapping: knots strictly increasing in designspace,
/// nondecreasing in userspace, every coordinate within [`COORD_BOUND`].
pub open spec fn map_wf(map: Seq<(i64, i64)>) -> bool {
    &&& forall|i: int|
        0 <= i < map.len() - 1 ==> (#[trigger] map[i]).1 < map[i + 1].1 && map[i].0 <= map[i
            + 1].0
    &&& forall|i: int|
        0 <= i < map.len() ==> -COORD_BOUND <= (#[trigger] map[i]).0 <= COORD_BOUND
            && -COORD_BOUND <= map[i].1 <= COORD_BOUND
}

/// An axis whose mapping and bounds the interpolation can work on.
pub open spec fn axis_coords_wf(a: Axis) -> bool {
    &&& match a.map {
        Some(m) => map_wf(m@),
        None => true,
    }
    &&& match a.min {
        Some(v) => -COORD_BOUND <= v <= COORD_BOUND,
        None => true,
    }
    &&& match a.max {
        Some(v) => -COORD_BOUND <= v <= COORD_BOUND,
        None => true,
    }
    &&& match a.default {
        Some(v) => -COORD_BOUND <= v <= COORD_BOUND,
        None => true,
    }
}

/// Piecewise-linear interpolation through the knots of `map` (as
/// `(userspace, designspace)` pairs), of the designspace value `l`:
/// clamped at the outermost knots, exact at every knot, linearly
/// interpolated between adjacent knots, and the identity when there are
/// no knots at all.
pub open spec fn spec_pwl(map: Seq<(i64, i64)>, l: i64) -> int
    decreases map.len(),
{
    if map.len() == 0 {
        l as int
    } else if map.len() == 1 {
        map[0].0 as int
    } else if l <= map[0].1 {
        map[0].0 as int
    } else if l <= map[1].1 {
        map[0].0 + (l - map[0].1) * (map[1].0 - map[0].0) / (map[1].1 - map[0].1)
    } else {
        spec_pwl(map.drop_first(), l)
    }
}

/// What the mapping sends `l` to on axis `a`: interpolation through its
/// knots, or `l` itself when the axis has no mapping.
pub open spec fn spec_axis_d2u(a: Axis, l: i64) -> int {
    match a.map {
        Some(m) => spec_pwl(m@, l),
        None => l as int,
    }
}

impl Axis {
    /// A fresh axis: range and mapping still unknown, not hidden.
    pub fn new(name: String, tag: String) -> (r: Axis)
        ensures
            r.name == name,
            r.tag == tag,
            !r.hidden,
            r.min is None && r.max is None && r.default is None && r.map is None,
    {
        Axis { name, tag, hidden: false, min: None, max: None, default: None, map: None }
    }

    /// The axis's `(min, default, max)` triple, once all three are known.
    pub fn bounds(&self) -> (r: Option<(i64, i64, i64)>)
        ensures
            r == (match (self.min, self.default, self.max) {
                (Some(mn), Some(df), Some(mx)) => Some((mn, df, mx)),
                _ => None::<(i64, i64, i64)>,
            }),
    {
        match (self.min, self.default, self.max) {
            (Some(mn), Some(df), Some(mx)) => Some((mn, df, mx)),
            _ => None,
        }
    }

    /// Sends the designspace coordinate `l` to userspace through the
    /// axis's mapping.
    pub fn designspace_to_userspace(&self, l: i64) -> (r: i64)
        requires
            axis_coords_wf(*self),
            -COORD_BOUND <= l <= COORD_BOUND,
        ensures
            r as int == spec_axis_d2u(*self, l),
    {
        match &self.map {
            Some(m) => pwl(m, l),
            None => l,
        }
    }
}

/// The interpolated userspace value stays between the two knots' values.
proof fn lemma_lerp_bounds(p: (i64, i64), q: (i64, i64), l: i64)
    requires
        p.1 < q.1,
        p.0 <= q.0,
        p.1 < l <= q.1,
    ensures
        0 <= (l - p.1) * (q.0 - p.0) / (q.1 - p.1) <= q.0 - p.0,
        (l - p.1) * (q.0 - p.0) == ((l - p.1) as u64 * (q.0 - p.0) as u64) as int,
        (q.1 - p.1) == ((q.1 - p.1) as u64) as int,
{
    let num = (l - p.1) * (q.0 - p.0);
    let den = (q.1 - p.1) as int;
    assert(0 <= num <= den * (q.0 - p.0)) by (nonlinear_arith)
        requires
            0 < l - p.1 <= den,
            0 <= q.0 - p.0,
            num == (l - p.1) * (q.0 - p.0),
    ;
    vstd::arithmetic::div_mod::lemma_div_is_ordered(num, den * (q.0 - p.0), den);
    vstd::arithmetic::div_mod::lemma_div_by_multiple(q.0 - p.0, den);
    vstd::arithmetic::div_mod::lemma_div_pos_is_pos(num, den);
}

/// Interpolates `l` through the knots of `map`.
fn pwl(map: &Vec<(i64, i64)>, l: i64) -> (r: i64)
    requires
        map_wf(map@),
        -COORD_BOUND <= l <= COORD_BOUND,
    ensures
        r as int == spec_pwl(map@, l),
{
    if map.len() == 0 {
        return l;
    }
    if map.len() == 1 || l <= map[0].1 {
        return map[0].0;
    }
    let mut i: usize = 0;
    proof {
        assert(map@.skip(0) =~= map@);
    }
    while i + 2 < map.len() && l > map[i + 1].1
        invariant
            map_wf(map@),
            map@.len() <= usize::MAX,
            i + 2 <= map@.len(),
            l > map@[i as int].1,
            spec_pwl(map@, l) == spec_pwl(map@.skip(i as int), l),
        decreases map@.len() - i,
    {
        proof {
            assert(map@.skip(i as int).drop_first() =~= map@.skip(i + 1));
        }
        i = i + 1;
    }
    let p = map[i];
    let q = map[i + 1];
    proof {
        assert(map@.skip(i as int)[0] == p && map@.skip(i as int)[1] == q);
    }
    if l > q.1 {
        // only possible when q is the last knot: clamp above
        proof {
            reveal_with_fuel(spec_pwl, 3);
            assert(map@.skip(i as int).drop_first() =~= map@.skip(i + 1));
            assert(map@.skip(i + 1).len() == 1);
            assert(map@.skip(i + 1)[0] == q);
        }
        return q.0;
    }
    proof {
        lemma_lerp_bounds(p, q, l);
        assert(((l - p.1) as u64) * ((q.0 - p.0) as u64) <= 0x4000_0000_0000_0000u64)
            by (nonlinear_arith)
            requires
                0 <= (l - p.1) as u64 <= 0x8000_0000u64,
                0 <= (q.0 - p.0) as u64 <= 0x8000_0000u64,
        ;
    }
    let num: u64 = ((l - p.1) as u64) * ((q.0 - p.0) as u64);
    let den: u64 = (q.1 - p.1) as u64;
    let quot: i64 = (num / den) as i64;
    p.0 + quot
}

/// The design-space location of master `m` on the axis tagged `tag`.
pub open spec fn master_loc(m: Master, tag: Seq<char>) -> i64 {
    spec_lookup(m.location.entries@, tag)
}

/// `cur` lowered to `loc` where `loc` is smaller or nothing was known.
pub open spec fn min_upd(cur: Option<i64>, loc: i64) -> Option<i64> {
    match cur {
        None => Some(loc),
        Some(v) => if loc < v {
            Some(loc)
        } else {
            Some(v)
        },
    }
}

/// `cur` raised to `loc` where `loc` is larger or nothing was known.
pub open spec fn max_upd(cur: Option<i64>, loc: i64) -> Option<i64> {
    match cur {
        None => Some(loc),
        Some(v) => if loc > v {
            Some(loc)
        } else {
            Some(v)
        },
    }
}

/// The axis default after seeing one master: the master's location when
/// it is the designated default master, else unchanged.
pub open spec fn default_upd(
    cur: Option<i64>,
    loc: i64,
    m_id: Seq<char>,
    dmid: Option<Seq<char>>,
) -> Option<i64> {
    match dmid {
        Some(d) => if d == m_id {
            Some(loc)
        } else {
            cur
        },
        None => cur,
    }
}

/// Axis `a` after taking one master's location into account.
pub open spec fn apply_master(a: Axis, m: Master, dmid: Option<Seq<char>>) -> Axis {
    let loc = master_loc(m, a.tag@);
    Axis {
        min: min_upd(a.min, loc),
        max: max_upd(a.max, loc),
        default: default_upd(a.default, loc, m.id@, dmid),
        ..a
    }
}

/// Axis `a` after taking every master's location into account, in order.
pub open spec fn apply_masters(a: Axis, masters: Seq<Master>, dmid: Option<Seq<char>>) -> Axis
    decreases masters.len(),
{
    if masters.len() == 0 {
        a
    } else {
        apply_masters(apply_master(a, masters[0], dmid), masters.drop_first(), dmid)
    }
}

proof fn lemma_apply_masters_snoc(a: Axis, masters: Seq<Master>, m: Master, dmid: Option<Seq<char>>)
    ensures
        apply_masters(a, masters.push(m), dmid) == apply_master(
            apply_masters(a, masters, dmid),
            m,
            dmid,
        ),
    decreases masters.len(),
{
    reveal_with_fuel(apply_masters, 3);
    if masters.len() == 0 {
        assert(masters.push(m).drop_first() =~= Seq::<Master>::empty());
    } else {
        assert(masters.push(m).drop_first() =~= masters.drop_first().push(m));
        lemma_apply_masters_snoc(apply_master(a, masters[0], dmid), masters.drop_first(), m, dmid);
    }
}

/// The identifier of the default master, as characters.
pub open spec fn dmid_view(default_master_id: Option<&String>) -> Option<Seq<char>> {
    match default_master_id {
        Some(d) => Some(d@),
        None => None,
    }
}

/// A font: its axes and its masters.  Only what the axis bookkeeping
/// reads is modeled here.
pub struct Font {
    /// The axes of variation, in declaration order.
    pub axes: Vec<Axis>,
    /// The masters, in declaration order.
    pub masters: Vec<Master>,
}

impl Font {
    /// A font with no axes and no masters yet.
    pub fn new() -> (r: Font)
        ensures
            r.axes@ == Seq::<Axis>::empty(),
            r.masters@ == Seq::<Master>::empty(),
    {
        Font { axes: Vec::new(), masters: Vec::new() }
    }
}

/// Tightens every axis's range to the locations its masters actually
/// cover: the minimum and maximum over all masters (folded into whatever
/// was already known), and the default set to the designated default
/// master's location where one is named.
pub fn fixup_axes(f: &mut Font, default_master_id: Option<&String>)
    ensures
        final(f).masters@ == old(f).masters@,
        final(f).axes@.len() == old(f).axes@.len(),
        forall|i: int|
            0 <= i < old(f).axes@.len() ==> #[trigger] final(f).axes@[i] == apply_masters(
                old(f).axes@[i],
                old(f).masters@,
                dmid_view(default_master_id),
            ),
{
    let ghost dm = dmid_view(default_master_id);
    let ghost old_axes = f.axes@;
    let total = f.axes.len();
    let mut new_axes: Vec<Axis> = Vec::new();
    let mut j: usize = 0;
    while f.axes.len() > 0
        invariant
            f.masters@ == old(f).masters@,
            dm == dmid_view(default_master_id),
            old_axes.len() == total,
            j + f.axes@.len() == old_axes.len(),
            f.axes@ =~= old_axes.skip(j as int),
            new_axes@.len() == j,
            forall|i: int|
                0 <= i < j ==> #[trigger] new_axes@[i] == apply_masters(
                    old_axes[i],
                    old(f).masters@,
                    dm,
                ),
        decreases f.axes@.len(),
    {
        let mut a = f.axes.remove(0);
        let ghost orig = a;
        proof {
            assert(old_axes.skip(j as int)[0] == old_axes[j as int]);
            assert(old_axes.skip(j as int).drop_first() =~= old_axes.skip(j + 1));
        }
        let mut k: usize = 0;
        while k < f.masters.len()
            invariant
                f.masters@ == old(f).masters@,
                k <= f.masters@.len(),
                a == apply_masters(orig, f.masters@.take(k as int), dm),
                dm == dmid_view(default_master_id),
            decreases f.masters@.len() - k,
        {
            let loc = f.masters[k].location.get(a.tag.as_str());
            a.min = match a.min {
                None => Some(loc),
                Some(v) => if loc < v {
                    Some(loc)
                } else {
                    Some(v)
                },
            };
            a.max = match a.max {
                None => Some(loc),
                Some(v) => if loc > v {
                    Some(loc)
                } else {
                    Some(v)
                },
            };
            match default_master_id {
                Some(d) => {
                    if str_eq(d.as_str(), f.masters[k].id.as_str()) {
                        a.default = Some(loc);
                    }
                },
                None => {},
            }
            proof {
                lemma_apply_masters_snoc(orig, f.masters@.take(k as int), f.masters@[k as int], dm);
                assert(f.masters@.take(k + 1) =~= f.masters@.take(k as int).push(
                    f.masters@[k as int],
                ));
            }
            k = k + 1;
        }
        proof {
            assert(f.masters@.take(f.masters@.len() as int) =~= f.masters@);
        }
        new_axes.push(a);
        j = j + 1;
    }
    f.axes = new_axes;
}

/// Axis `a` with its bounds carried from designspace to userspace
/// through its mapping — only when it has a mapping and all three bounds
/// are known.
pub open spec fn spec_fixup_mapping(a: Axis) -> Axis {
    match a.map {
        None => a,
        Some(m) => match (a.min, a.default, a.max) {
            (Some(mn), Some(df), Some(mx)) => Axis {
                min: Some(spec_pwl(m@, mn) as i64),
                max: Some(spec_pwl(m@, mx) as i64),
                default: Some(spec_pwl(m@, df) as i64),
                ..a
            },
            _ => a,
        },
    }
}

/// Carries every mapped axis's bounds from designspace to userspace
/// through its mapping; axes without a mapping, or with an incomplete
/// `(min, default, max)` triple, are left as they are.
pub fn fixup_axis_mappings(font: &mut Font)
    requires
        forall|i: int|
            0 <= i < old(font).axes@.len() ==> axis_coords_wf(#[trigger] old(font).axes@[i]),
    ensures
        final(font).masters@ == old(font).masters@,
        final(font).axes@.len() == old(font).axes@.len(),
        forall|i: int|
            0 <= i < old(font).axes@.len() ==> #[trigger] final(font).axes@[i]
                == spec_fixup_mapping(old(font).axes@[i]),
{
    let ghost old_axes = font.axes@;
    let total = font.axes.len();
    let mut new_axes: Vec<Axis> = Vec::new();
    let mut j: usize = 0;
    while font.axes.len() > 0
        invariant
            font.masters@ == old(font).masters@,
            old_axes.len() == total,
            j + font.axes@.len() == old_axes.len(),
            font.axes@ =~= old_axes.skip(j as int),
            forall|i: int| 0 <= i < old_axes.len() ==> axis_coords_wf(#[trigger] old_axes[i]),
            new_axes@.len() == j,
            forall|i: int|
                0 <= i < j ==> #[trigger] new_axes@[i] == spec_fixup_mapping(old_axes[i]),
        decreases font.axes@.len(),
    {
        let mut a = font.axes.remove(0);
        proof {
            assert(old_axes.skip(j as int)[0] == old_axes[j as int]);
            assert(old_axes.skip(j as int).drop_first() =~= old_axes.skip(j + 1));
        }
        let has_map = match &a.map {
            Some(_) => true,
            None => false,
        };
        if has_map {
            match a.bounds() {
                Some((mn, df, mx)) => {
                    let new_min = a.designspace_to_userspace(mn);
                    let new_max = a.designspace_to_userspace(mx);
                    let new_default = a.designspace_to_userspace(df);
                    a.min = Some(new_min);
                    a.max = Some(new_max);
                    a.default = Some(new_default);
                },
                None => {},
            }
        }
        new_axes.push(a);
        j = j + 1;
    }
    font.axes = new_axes;
}

/// The canonical name of a vertical metric: the source-format spellings
/// "x-height" and "cap height" become "xHeight" and "capHeight"; any
/// other name is kept as it is.
pub fn convert_metric_name(n: &str) -> (r: String)
    ensures
        r@ == spec_convert_metric_name(n@),
{
    if str_eq(n, "x-height") {
        String::from_str("xHeight")
    } else if str_eq(n, "cap height") {
        String::from_str("capHeight")
    } else {
        n.to_owned()
    }
}

/// What [`convert_metric_name`] returns, over characters.
pub open spec fn spec_convert_metric_name(n: Seq<char>) -> Seq<char> {
    if n == "x-height"@ {
        "xHeight"@
    } else if n == "cap height"@ {
        "capHeight"@
    } else {
        n
    }
}

} // verus!
