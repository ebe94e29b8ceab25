use vstd::prelude::*;

verus! {

/// A triangle with corners `p1`, `p2`, `p3`, in that order.
#[derive(Debug, Clone, Copy, PartialEq)]
pub struct Triangle<P> {
    pub p1: P,
    pub p2: P,
    pub p3: P,
}

/// A corner of a clipped polygon: a corner of the triangle that is kept, or
/// the point where the edge from corner `i` to corner `(i + 1) % 3` crosses
/// the clipping plane.
#[derive(Debug, Clone, Copy, PartialEq, Eq, Structural)]
pub enum Corner {
    Vertex(usize),
    Crossing(usize),
}

/// The corner after `i`, going round the triangle.
pub open spec fn after(i: int) -> int {
    if i == 2 {
        0
    } else {
        i + 1
    }
}

/// What edge `i` adds to the clipped polygon: its start corner if that is
/// inside, then its crossing point if its ends are on different sides.
pub open spec fn edge_part(inside: Seq<bool>, i: int) -> Seq<Corner> {
    (if inside[i] {
        seq![Corner::Vertex(i as usize)]
    } else {
        Seq::empty()
    }) + (if inside[i] != inside[after(i)] {
        seq![Corner::Crossing(i as usize)]
    } else {
        Seq::empty()
    })
}

/// The part of a triangle on the inside of a plane, as a polygon, given
/// which of its three corners are inside.
pub open spec fn outline(inside: Seq<bool>) -> Seq<Corner> {
    edge_part(inside, 0) + edge_part(inside, 1) + edge_part(inside, 2)
}

/// The triangles that cover a polygon of three or four corners, fanned from
/// its first corner; any other polygon gives none.
pub open spec fn cover<T>(poly: Seq<T>) -> Seq<(T, T, T)> {
    if poly.len() == 3 {
        seq![(poly[0], poly[1], poly[2])]
    } else if poly.len() == 4 {
        seq![(poly[0], poly[1], poly[2]), (poly[0], poly[2], poly[3])]
    } else {
        Seq::empty()
    }
}

/// How many of the three corners are inside.
pub open spec fn count_inside(inside: Seq<bool>) -> int {
    (if inside[0] { 1int } else { 0 }) + (if inside[1] { 1int } else { 0 }) + (if inside[2] {
        1int
    } else {
        0
    })
}

/// The triangles that cover the inside part of a triangle whose corners are
/// inside as `inside` says, each given by its corners (see [`outline`] and
/// [`cover`]).
pub fn clip_plan(inside: [bool; 3]) -> (r: Vec<(Corner, Corner, Corner)>)
    ensures
        r@ == cover(outline(inside@)),
{
    let mut poly: Vec<Corner> = Vec::new();
    let ghost ins = inside@;
    for i in 0..3
        invariant
            ins == inside@,
            ins.len() == 3,
            poly@ == if i == 0 {
                Seq::empty()
            } else if i == 1 {
                edge_part(ins, 0)
            } else if i == 2 {
                edge_part(ins, 0) + edge_part(ins, 1)
            } else {
                outline(ins)
            },
    {
        let j: usize = if i == 2 {
            0
        } else {
            i + 1
        };
        let ghost before = poly@;
        if inside[i] {
            poly.push(Corner::Vertex(i));
        }
        if inside[i] != inside[j] {
            poly.push(Corner::Crossing(i));
        }
        assert(poly@ =~= before + edge_part(ins, i as int));
    }
    let mut r: Vec<(Corner, Corner, Corner)> = Vec::new();
    if poly.len() == 3 {
        r.push((poly[0], poly[1], poly[2]));
    } else if poly.len() == 4 {
        r.push((poly[0], poly[1], poly[2]));
        r.push((poly[0], poly[2], poly[3]));
    }
    assert(r@ =~= cover(poly@));
    r
}

/// A clipped polygon has no corners when every corner is outside, three when
/// one or all three are inside, and four when two are.
pub proof fn law_outline_size(inside: Seq<bool>)
    requires
        inside.len() == 3,
    ensures
        count_inside(inside) == 0 ==> outline(inside).len() == 0,
        count_inside(inside) == 1 ==> outline(inside).len() == 3,
        count_inside(inside) == 2 ==> outline(inside).len() == 4,
        count_inside(inside) == 3 ==> outline(inside).len() == 3,
        cover(outline(inside)).len() == if count_inside(inside) == 2 {
            2int
        } else if count_inside(inside) == 0 {
            0int
        } else {
            1int
        },
{
}

/// A triangle that lies wholly inside is kept as it is.
pub proof fn law_all_inside_kept(inside: Seq<bool>)
    requires
        inside =~= seq![true, true, true],
    ensures
        cover(outline(inside)) == seq![
            (Corner::Vertex(0), Corner::Vertex(1), Corner::Vertex(2)),
        ],
{
    assert(outline(inside) =~= seq![Corner::Vertex(0), Corner::Vertex(1), Corner::Vertex(2)]);
}

/// The clipped polygon keeps exactly the corners that are inside, and cuts
/// exactly the edges whose ends lie on different sides.
pub proof fn law_outline_corners(inside: Seq<bool>, i: int)
    requires
        inside.len() == 3,
        0 <= i < 3,
    ensures
        outline(inside).contains(Corner::Vertex(i as usize)) <==> inside[i],
        outline(inside).contains(Corner::Crossing(i as usize)) <==> inside[i] != inside[after(i)],
{
    let o = outline(inside);
    let e0 = edge_part(inside, 0);
    let e1 = edge_part(inside, 1);
    let e2 = edge_part(inside, 2);
    assert(o =~= e0 + e1 + e2);
    if inside[i] {
        let k = if i == 0 { 0 } else if i == 1 { e0.len() as int } else { (e0.len() + e1.len()) as int };
        assert(o[k] == Corner::Vertex(i as usize));
    }
    if inside[i] != inside[after(i)] {
        let k = if i == 0 {
            e0.len() - 1
        } else if i == 1 {
            e0.len() + e1.len() - 1
        } else {
            e0.len() + e1.len() + e2.len() - 1
        };
        assert(o[k] == Corner::Crossing(i as usize));
    }
    assert forall|k: int| 0 <= k < o.len() implies o[k] != Corner::Vertex(i as usize) || inside[i] by {
        if k < e0.len() {
            assert(o[k] == e0[k]);
        } else if k < e0.len() + e1.len() {
            assert(o[k] == e1[k - e0.len()]);
        } else {
            assert(o[k] == e2[k - e0.len() - e1.len()]);
        }
    }
    assert forall|k: int| 0 <= k < o.len() implies o[k] != Corner::Crossing(i as usize) || inside[i] != inside[after(i)] by {
        if k < e0.len() {
            assert(o[k] == e0[k]);
        } else if k < e0.len() + e1.len() {
            assert(o[k] == e1[k - e0.len()]);
        } else {
            assert(o[k] == e2[k - e0.len() - e1.len()]);
        }
    }
}

impl<P> Triangle<P> {
    /// The triangle with corners `p1`, `p2`, `p3`.
    pub fn new(p1: P, p2: P, p3: P) -> (t: Triangle<P>)
        ensures
            t == (Triangle { p1, p2, p3 }),
    {
        Triangle { p1, p2, p3 }
    }

    /// Corner `i`, counting from 0.
    pub open spec fn corner(&self, i: int) -> P {
        if i == 0 {
            self.p1
        } else if i == 1 {
            self.p2
        } else {
            self.p3
        }
    }

    /// Corner `idx`, counting from 0.
    pub fn index(&self, idx: usize) -> (r: &P)
        requires
            idx < 3,
        ensures
            *r == self.corner(idx as int),
    {
        if idx == 0 {
            &self.p1
        } else if idx == 1 {
            &self.p2
        } else {
            &self.p3
        }
    }

    /// The triangle whose corners are `f` applied to the corners of `self`,
    /// in the order `p1`, `p2`, `p3`.
    pub fn map<F: Fn(P) -> P>(self, f: F) -> (t: Triangle<P>)
        requires
            f.requires((self.p1,)),
            f.requires((self.p2,)),
            f.requires((self.p3,)),
        ensures
            f.ensures((self.p1,), t.p1),
            f.ensures((self.p2,), t.p2),
            f.ensures((self.p3,), t.p3),
    {
        let p1 = f(self.p1);
        let p2 = f(self.p2);
        let p3 = f(self.p3);
        Triangle { p1, p2, p3 }
    }
}

impl<P: Copy> Triangle<P> {
    /// `p` is where corner `c` of a clipped polygon of `self` lies: the
    /// triangle's corner itself, or a point that `cut` gives for the two ends
    /// of the edge it crosses.
    pub open spec fn places<F: Fn(P, P) -> P>(&self, c: Corner, cut: F, p: P) -> bool {
        match c {
            Corner::Vertex(i) => p == self.corner(i as int),
            Corner::Crossing(i) => cut.ensures(
                (self.corner(i as int), self.corner(after(i as int))),
                p,
            ),
        }
    }

    /// The triangles that cover the part of `self` inside a plane, where
    /// `inside` says which corners are inside and `cut(a, b)` gives the point
    /// where the edge from `a` to `b` crosses the plane. Each crossing point is
    /// computed once and shared by the triangles that use it.
    pub fn clip<F: Fn(P, P) -> P>(&self, inside: [bool; 3], cut: F) -> (r: Vec<Triangle<P>>)
        requires
            forall|i: int|
                0 <= i < 3 && inside@[i] != inside@[after(i)] ==> cut.requires(
                    (self.corner(i), self.corner(after(i))),
                ),
        ensures
            exists|poly: Seq<P>|
                {
                    &&& poly.len() == outline(inside@).len()
                    &&& forall|j: int|
                        0 <= j < poly.len() ==> self.places(outline(inside@)[j], cut, poly[j])
                    &&& r@ == cover(poly).map_values(
                        |t: (P, P, P)| Triangle { p1: t.0, p2: t.1, p3: t.2 },
                    )
                },
            r@.len() == cover(outline(inside@)).len(),
            inside@ =~= seq![true, true, true] ==> r@ == seq![*self],
    {
        let mut poly: Vec<P> = Vec::new();
        let ghost ins = inside@;
        for i in 0..3
            invariant
                ins == inside@,
                ins.len() == 3,
                forall|k: int|
                    0 <= k < 3 && ins[k] != ins[after(k)] ==> cut.requires(
                        (self.corner(k), self.corner(after(k))),
                    ),
                poly@.len() == (if i == 0 {
                    Seq::<Corner>::empty()
                } else if i == 1 {
                    edge_part(ins, 0)
                } else if i == 2 {
                    edge_part(ins, 0) + edge_part(ins, 1)
                } else {
                    outline(ins)
                }).len(),
                forall|j: int|
                    0 <= j < poly@.len() ==> self.places(
                        (if i == 0 {
                            Seq::<Corner>::empty()
                        } else if i == 1 {
                            edge_part(ins, 0)
                        } else if i == 2 {
                            edge_part(ins, 0) + edge_part(ins, 1)
                        } else {
                            outline(ins)
                        })[j],
                        cut,
                        poly@[j],
                    ),
        {
            let ghost before = poly@;
            let ghost done: Seq<Corner> = if i == 0 {
                Seq::empty()
            } else if i == 1 {
                edge_part(ins, 0)
            } else {
                edge_part(ins, 0) + edge_part(ins, 1)
            };
            let ghost now = done + edge_part(ins, i as int);
            assert(i == 0 ==> now =~= edge_part(ins, 0));
            assert(i == 2 ==> now =~= outline(ins));
            let j: usize = if i == 2 {
                0
            } else {
                i + 1
            };
            let a = *self.index(i);
            let b = *self.index(j);
            if inside[i] {
                poly.push(a);
            }
            if inside[i] != inside[j] {
                let p = cut(a, b);
                poly.push(p);
            }
            assert forall|k: int| 0 <= k < poly@.len() implies self.places(now[k], cut, poly@[k]) by {
                if k >= before.len() {
                    if inside[i as int] && k == before.len() {
                        assert(now[k] == Corner::Vertex(i));
                    } else {
                        assert(now[k] == Corner::Crossing(i));
                    }
                } else {
                    assert(now[k] == done[k]);
                }
            }
        }
        let mut r: Vec<Triangle<P>> = Vec::new();
        if poly.len() == 3 {
            r.push(Triangle { p1: poly[0], p2: poly[1], p3: poly[2] });
        } else if poly.len() == 4 {
            r.push(Triangle { p1: poly[0], p2: poly[1], p3: poly[2] });
            r.push(Triangle { p1: poly[0], p2: poly[2], p3: poly[3] });
        }
        assert(r@ =~= cover(poly@).map_values(
            |t: (P, P, P)| Triangle { p1: t.0, p2: t.1, p3: t.2 },
        ));
        if inside[0] && inside[1] && inside[2] {
            assert(outline(ins) =~= seq![Corner::Vertex(0), Corner::Vertex(1), Corner::Vertex(2)]);
            assert(self.places(outline(ins)[0], cut, poly@[0]));
            assert(self.places(outline(ins)[1], cut, poly@[1]));
            assert(self.places(outline(ins)[2], cut, poly@[2]));
            assert(r@ =~= seq![*self]);
        }
        r
    }
}

} // verus!
