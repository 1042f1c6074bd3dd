//! Static table geometry: six pockets and four axis-aligned cushions,
//! immutable for a session. A cushion is a segment with an orientation tag
//! saying which velocity axis its reflection flips; its supporting line
//! `l · (x, y) + l0 = 0` is derived from the two endpoints.

use vstd::prelude::*;

use crate::vec2::Vec2;

verus! {

/// Bound on the coordinates of pockets and cushion endpoints.
pub const GEOM_LIMIT: i64 = 1_073_741_824;

/// Table width in position units (150 cm).
pub const TABLE_WIDTH: i64 = 1_500_000;

/// Table length in position units (980.665 cm).
pub const TABLE_LENGTH: i64 = 9_806_650;

/// Which velocity axis a cushion's reflection flips: TOP and BOTTOM run
/// across the table and flip `y`; LEFT and RIGHT run along it and flip `x`.
#[derive(Clone, Copy, PartialEq, Eq, Structural, Debug)]
pub enum CushionType {
    TOP,
    BOTTOM,
    LEFT,
    RIGHT,
}

#[derive(Clone, Copy, PartialEq, Eq, Structural, Debug)]
pub struct Cushion {
    pub r1: Vec2,
    pub r2: Vec2,
    pub ctype: CushionType,
}

/// Normal components and offset of the supporting line of a cushion:
/// the line through `r1` and `r2` is `lx * x + ly * y + l0 == 0`.
pub open spec fn line_lx(c: Cushion) -> int {
    -((c.r2.y as int) - (c.r1.y as int))
}

pub open spec fn line_ly(c: Cushion) -> int {
    (c.r2.x as int) - (c.r1.x as int)
}

pub open spec fn line_l0(c: Cushion) -> int {
    -(line_lx(c) * (c.r1.x as int) + line_ly(c) * (c.r1.y as int))
}

impl Cushion {
    /// Bounded endpoints. A degenerate (zero-length) segment is tolerated:
    /// the contact predicate treats its line as unreachable, so it simply
    /// never produces an event.
    pub open spec fn wf(self) -> bool {
        &&& -GEOM_LIMIT <= self.r1.x <= GEOM_LIMIT
        &&& -GEOM_LIMIT <= self.r1.y <= GEOM_LIMIT
        &&& -GEOM_LIMIT <= self.r2.x <= GEOM_LIMIT
        &&& -GEOM_LIMIT <= self.r2.y <= GEOM_LIMIT
    }
}

#[derive(Clone, Copy, PartialEq, Eq, Structural, Debug)]
pub struct Pocket {
    pub r: Vec2,
}

impl Pocket {
    pub open spec fn wf(self) -> bool {
        &&& -GEOM_LIMIT <= self.r.x <= GEOM_LIMIT
        &&& -GEOM_LIMIT <= self.r.y <= GEOM_LIMIT
    }
}

/// The exact pocket layout of the standard table: four corners and two side
/// pockets halfway up the long rails.
pub open spec fn standard_pockets(ps: Seq<Pocket>) -> bool {
    &&& ps.len() == 6
    &&& ps[0].r == (Vec2 { x: 0, y: 0 })
    &&& ps[1].r == (Vec2 { x: 0, y: (TABLE_LENGTH / 2) as i64 })
    &&& ps[2].r == (Vec2 { x: 0, y: TABLE_LENGTH })
    &&& ps[3].r == (Vec2 { x: TABLE_WIDTH, y: 0 })
    &&& ps[4].r == (Vec2 { x: TABLE_WIDTH, y: (TABLE_LENGTH / 2) as i64 })
    &&& ps[5].r == (Vec2 { x: TABLE_WIDTH, y: TABLE_LENGTH })
}

/// The exact cushion layout of the standard table: one rail per side, each
/// tagged with the axis its reflection flips.
pub open spec fn standard_cushions(cs: Seq<Cushion>) -> bool {
    &&& cs.len() == 4
    &&& cs[0] == (Cushion {
        r1: Vec2 { x: 0, y: 0 },
        r2: Vec2 { x: TABLE_WIDTH, y: 0 },
        ctype: CushionType::BOTTOM,
    })
    &&& cs[1] == (Cushion {
        r1: Vec2 { x: 0, y: 0 },
        r2: Vec2 { x: 0, y: TABLE_LENGTH },
        ctype: CushionType::LEFT,
    })
    &&& cs[2] == (Cushion {
        r1: Vec2 { x: 0, y: TABLE_LENGTH },
        r2: Vec2 { x: TABLE_WIDTH, y: TABLE_LENGTH },
        ctype: CushionType::TOP,
    })
    &&& cs[3] == (Cushion {
        r1: Vec2 { x: TABLE_WIDTH, y: 0 },
        r2: Vec2 { x: TABLE_WIDTH, y: TABLE_LENGTH },
        ctype: CushionType::RIGHT,
    })
}

/// The six pockets of the standard table.
pub fn init_pockets() -> (ps: Vec<Pocket>)
    ensures
        standard_pockets(ps@),
        forall|i: int| 0 <= i < 6 ==> (#[trigger] ps@[i]).wf(),
{
    let mut ps: Vec<Pocket> = Vec::new();
    ps.push(Pocket { r: Vec2 { x: 0, y: 0 } });
    ps.push(Pocket { r: Vec2 { x: 0, y: TABLE_LENGTH / 2 } });
    ps.push(Pocket { r: Vec2 { x: 0, y: TABLE_LENGTH } });
    ps.push(Pocket { r: Vec2 { x: TABLE_WIDTH, y: 0 } });
    ps.push(Pocket { r: Vec2 { x: TABLE_WIDTH, y: TABLE_LENGTH / 2 } });
    ps.push(Pocket { r: Vec2 { x: TABLE_WIDTH, y: TABLE_LENGTH } });
    ps
}

/// The four cushions of the standard table.
pub fn init_cushions() -> (cs: Vec<Cushion>)
    ensures
        standard_cushions(cs@),
        forall|i: int| 0 <= i < 4 ==> (#[trigger] cs@[i]).wf(),
{
    let mut cs: Vec<Cushion> = Vec::new();
    cs.push(
        Cushion {
            r1: Vec2 { x: 0, y: 0 },
            r2: Vec2 { x: TABLE_WIDTH, y: 0 },
            ctype: CushionType::BOTTOM,
        },
    );
    cs.push(
        Cushion {
            r1: Vec2 { x: 0, y: 0 },
            r2: Vec2 { x: 0, y: TABLE_LENGTH },
            ctype: CushionType::LEFT,
        },
    );
    cs.push(
        Cushion {
            r1: Vec2 { x: 0, y: TABLE_LENGTH },
            r2: Vec2 { x: TABLE_WIDTH, y: TABLE_LENGTH },
            ctype: CushionType::TOP,
        },
    );
    cs.push(
        Cushion {
            r1: Vec2 { x: TABLE_WIDTH, y: 0 },
            r2: Vec2 { x: TABLE_WIDTH, y: TABLE_LENGTH },
            ctype: CushionType::RIGHT,
        },
    );
    cs
}

pub struct PoolTable {
    pub pockets: Vec<Pocket>,
    pub cushions: Vec<Cushion>,
}

impl PoolTable {
    pub fn new() -> (t: PoolTable)
        ensures
            standard_pockets(t.pockets@),
            standard_cushions(t.cushions@),
            forall|i: int| 0 <= i < 6 ==> (#[trigger] t.pockets@[i]).wf(),
            forall|i: int| 0 <= i < 4 ==> (#[trigger] t.cushions@[i]).wf(),
    {
        PoolTable { pockets: init_pockets(), cushions: init_cushions() }
    }

    pub fn get_pocket(&self, pocket_id: usize) -> (p: &Pocket)
        requires
            pocket_id < self.pockets@.len(),
        ensures
            *p == self.pockets@[pocket_id as int],
    {
        &self.pockets[pocket_id]
    }

    pub fn num_pockets(&self) -> (n: usize)
        ensures
            n == self.pockets@.len(),
    {
        self.pockets.len()
    }

    pub fn num_cushions(&self) -> (n: usize)
        ensures
            n == self.cushions@.len(),
    {
        self.cushions.len()
    }
}

} // verus!
