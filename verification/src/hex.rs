//! Cube-coordinate hexagon cells and the outward spiral used to lay out
//! launcher items. A cell is addressed by three coordinates `q`, `r`, `s`;
//! cells produced by `spiral` and `neighbor` keep the cube-coordinate
//! balance `q + r + s == 0`.

use vstd::prelude::*;

verus! {

#[derive(Clone, Copy, Debug, Default, PartialEq, Eq, Structural)]
pub struct Hex {
    pub q: isize,
    pub r: isize,
    pub s: isize,
}

/// `q` component of the six unit direction vectors, in the fixed order
/// used to walk a ring.
pub open spec fn dir_q(d: int) -> int {
    if d == 0 {
        1
    } else if d == 1 {
        1
    } else if d == 2 {
        0
    } else if d == 3 {
        -1
    } else if d == 4 {
        -1
    } else {
        0
    }
}

/// `r` component of the six unit direction vectors.
pub open spec fn dir_r(d: int) -> int {
    if d == 0 {
        0
    } else if d == 1 {
        -1
    } else if d == 2 {
        -1
    } else if d == 3 {
        0
    } else if d == 4 {
        1
    } else {
        1
    }
}

/// `s` component of the six unit direction vectors.
pub open spec fn dir_s(d: int) -> int {
    if d == 0 {
        -1
    } else if d == 1 {
        0
    } else if d == 2 {
        1
    } else if d == 3 {
        1
    } else if d == 4 {
        0
    } else {
        -1
    }
}

/// Index of the first cell of the ring at the given radius, counting the
/// center as cell 0: ring `radius` starts after the center plus the
/// `6 * k` cells of every ring `k < radius`.
pub open spec fn ring_start(radius: int) -> int {
    1 + 3 * radius * (radius - 1)
}

/// Coordinates of the cell reached after `pos` steps along the ring at
/// `radius`, starting at the top-left cell and walking the six sides in
/// direction order, `radius` steps per side.
pub open spec fn ring_hex(radius: int, pos: nat) -> (int, int, int)
    decreases pos,
{
    if pos == 0 {
        (-radius, radius, 0)
    } else {
        let prev = ring_hex(radius, (pos - 1) as nat);
        let side = (pos - 1) / radius;
        (prev.0 + dir_q(side), prev.1 + dir_r(side), prev.2 + dir_s(side))
    }
}

/// Ring starts are ordered by radius.
proof fn lemma_ring_start_mono(a: int, b: int)
    requires
        1 <= a <= b,
    ensures
        ring_start(a) <= ring_start(b),
{
    assert(3 * a * (a - 1) <= 3 * b * (b - 1)) by (nonlinear_arith)
        requires
            1 <= a <= b,
    ;
}

/// An index on a ring decomposes into a radius and a position in exactly
/// one way.
proof fn lemma_ring_decomposition_unique(i: int, rad1: int, pos1: int, rad2: int, pos2: int)
    requires
        1 <= rad1,
        0 <= pos1 < 6 * rad1,
        i == ring_start(rad1) + pos1,
        1 <= rad2,
        0 <= pos2 < 6 * rad2,
        i == ring_start(rad2) + pos2,
    ensures
        rad1 == rad2,
        pos1 == pos2,
{
    assert(ring_start(rad1) + 6 * rad1 == ring_start(rad1 + 1)) by (nonlinear_arith);
    assert(ring_start(rad2) + 6 * rad2 == ring_start(rad2 + 1)) by (nonlinear_arith);
    if rad1 < rad2 {
        lemma_ring_start_mono(rad1 + 1, rad2);
        assert(false);
    }
    if rad2 < rad1 {
        lemma_ring_start_mono(rad2 + 1, rad1);
        assert(false);
    }
}

impl Hex {
    pub fn new(q: isize, r: isize, s: isize) -> (h: Hex)
        ensures
            h == (Hex { q, r, s }),
    {
        Hex { q, r, s }
    }

    /// The unit direction vector with the given index.
    pub fn direction(d: usize) -> (h: Hex)
        requires
            d < 6,
        ensures
            h.q as int == dir_q(d as int),
            h.r as int == dir_r(d as int),
            h.s as int == dir_s(d as int),
    {
        if d == 0 {
            Hex { q: 1, r: 0, s: -1 }
        } else if d == 1 {
            Hex { q: 1, r: -1, s: 0 }
        } else if d == 2 {
            Hex { q: 0, r: -1, s: 1 }
        } else if d == 3 {
            Hex { q: -1, r: 0, s: 1 }
        } else if d == 4 {
            Hex { q: -1, r: 1, s: 0 }
        } else {
            Hex { q: 0, r: 1, s: -1 }
        }
    }

    /// Component-wise sum of two cells.
    pub fn add(self, rhs: Hex) -> (h: Hex)
        requires
            isize::MIN <= self.q + rhs.q <= isize::MAX,
            isize::MIN <= self.r + rhs.r <= isize::MAX,
            isize::MIN <= self.s + rhs.s <= isize::MAX,
        ensures
            h.q as int == self.q + rhs.q,
            h.r as int == self.r + rhs.r,
            h.s as int == self.s + rhs.s,
    {
        Hex { q: self.q + rhs.q, r: self.r + rhs.r, s: self.s + rhs.s }
    }

    /// The adjacent cell in the given direction.
    pub fn neighbor(self, direction: usize) -> (h: Hex)
        requires
            direction < 6,
            isize::MIN < self.q < isize::MAX,
            isize::MIN < self.r < isize::MAX,
            isize::MIN < self.s < isize::MAX,
        ensures
            h.q as int == self.q + dir_q(direction as int),
            h.r as int == self.r + dir_r(direction as int),
            h.s as int == self.s + dir_s(direction as int),
    {
        self.add(Hex::direction(direction))
    }

    /// The cell scaled component-wise by a factor.
    pub fn scale(self, factor: isize) -> (h: Hex)
        requires
            isize::MIN <= self.q * factor <= isize::MAX,
            isize::MIN <= self.r * factor <= isize::MAX,
            isize::MIN <= self.s * factor <= isize::MAX,
        ensures
            h.q as int == self.q * factor,
            h.r as int == self.r * factor,
            h.s as int == self.s * factor,
    {
        Hex { q: self.q * factor, r: self.r * factor, s: self.s * factor }
    }

    /// The cell at position `i` of an outward spiral, where `i == 0` is the
    /// center; the cells of each ring are visited side by side in direction
    /// order. The bound on `i` keeps every intermediate count inside the
    /// machine integer range on 32-bit targets.
    pub fn spiral(i: usize) -> (h: Hex)
        requires
            i <= 0x1000_0000,
        ensures
            i == 0 ==> h == (Hex { q: 0, r: 0, s: 0 }),
            forall|rad: int, pos: int|
                1 <= rad && 0 <= pos < 6 * rad && i as int == ring_start(rad) + pos
                    ==> (h.q as int, h.r as int, h.s as int) == #[trigger] ring_hex(rad, pos as nat),
    {
        if i == 0 {
            return Hex { q: 0, r: 0, s: 0 };
        }
        // Find the ring that holds cell i and the cell's position in it.
        let mut cells_before: usize = 1;
        let mut radius: usize = 1;
        while cells_before + radius * 6 <= i
            invariant
                1 <= i <= 0x1000_0000,
                1 <= radius,
                radius <= cells_before,
                cells_before <= i,
                cells_before as int == ring_start(radius as int),
            decreases i - cells_before,
        {
            proof {
                assert(ring_start(radius as int) + 6 * (radius as int) == ring_start(
                    radius as int + 1,
                )) by (nonlinear_arith);
                assert(radius + 1 <= cells_before + radius * 6) by (nonlinear_arith)
                    requires
                        1 <= radius && radius <= cells_before,
                ;
            }
            cells_before = cells_before + radius * 6;
            radius = radius + 1;
        }
        let pos_in_ring: usize = i - cells_before;
        assert(pos_in_ring < 6 * radius);

        // Start at the first cell of the ring and walk its six sides.
        let mut hex = Hex { q: -(radius as isize), r: radius as isize, s: 0 };
        let mut steps_taken: usize = 0;
        let mut side: usize = 0;
        while side < 6
            invariant
                1 <= radius <= 0x1000_0000,
                pos_in_ring < 6 * radius,
                side <= 6,
                steps_taken == side * radius,
                steps_taken <= pos_in_ring,
                (hex.q as int, hex.r as int, hex.s as int) == ring_hex(
                    radius as int,
                    steps_taken as nat,
                ),
                -(radius as int) - steps_taken <= hex.q as int <= radius as int + steps_taken,
                -(radius as int) - steps_taken <= hex.r as int <= radius as int + steps_taken,
                -(radius as int) - steps_taken <= hex.s as int <= radius as int + steps_taken,
                i as int == ring_start(radius as int) + pos_in_ring,
            decreases 6 - side,
        {
            let mut step: usize = 0;
            while step < radius
                invariant
                    1 <= radius <= 0x1000_0000,
                    pos_in_ring < 6 * radius,
                    side < 6,
                    step <= radius,
                    steps_taken == side * radius + step,
                    steps_taken <= pos_in_ring,
                    (hex.q as int, hex.r as int, hex.s as int) == ring_hex(
                        radius as int,
                        steps_taken as nat,
                    ),
                    -(radius as int) - steps_taken <= hex.q as int <= radius as int + steps_taken,
                    -(radius as int) - steps_taken <= hex.r as int <= radius as int + steps_taken,
                    -(radius as int) - steps_taken <= hex.s as int <= radius as int + steps_taken,
                    i as int == ring_start(radius as int) + pos_in_ring,
                decreases radius - step,
            {
                if steps_taken == pos_in_ring {
                    proof {
                        assert forall|rad: int, pos: int|
                            1 <= rad && 0 <= pos < 6 * rad && i as int == ring_start(rad)
                                + pos implies (hex.q as int, hex.r as int, hex.s as int)
                                == #[trigger] ring_hex(rad, pos as nat) by {
                            lemma_ring_decomposition_unique(
                                i as int,
                                radius as int,
                                pos_in_ring as int,
                                rad,
                                pos,
                            );
                        }
                    }
                    return hex;
                }
                proof {
                    assert(steps_taken < 6 * radius);
                    assert(steps_taken as int / radius as int == side as int) by {
                        vstd::arithmetic::div_mod::lemma_fundamental_div_mod_converse(
                            steps_taken as int,
                            radius as int,
                            side as int,
                            step as int,
                        );
                    }
                }
                hex = hex.neighbor(side);
                steps_taken = steps_taken + 1;
                step = step + 1;
            }
            proof {
                assert((side + 1) * (radius as int) == side * (radius as int) + radius)
                    by (nonlinear_arith);
            }
            side = side + 1;
        }
        // The position is always inside the ring, so the walk above returns.
        proof {
            assert(steps_taken == 6 * radius);
            assert(false);
        }
        hex
    }
}

} // verus!
