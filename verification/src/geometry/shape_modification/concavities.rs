//! Closing narrow concavities of a polygon.
use vstd::prelude::*;

use crate::error::GeometryError;
use crate::geometry::primitives::boundary::{calculate_chord_area, next_index};
use crate::geometry::primitives::circle::Circle;
use crate::geometry::primitives::edge::Edge;
use crate::geometry::primitives::point::Point;
use crate::geometry::primitives::simple_polygon::{SPolygon, Toolkit};
use crate::geometry::shape_modification::ShapeModifyMode;
use crate::math::{evaluates, Elementary};
use crate::num::Num;

verus! {

/// How many vertices of a polygon with `n` vertices lie between vertex `i` and vertex `j`.
pub open spec fn spec_vertices_between(n: usize, i: usize, j: usize) -> usize {
    (if j > i {
        j - i - 1
    } else {
        n - i + j - 1
    }) as usize
}

#[verifier::when_used_as_spec(spec_vertices_between)]
pub fn vertices_between(n: usize, i: usize, j: usize) -> (r: usize)
    requires
        i < n,
        j < n,
        i != j,
    ensures
        r == spec_vertices_between(n, i, j),
{
    if j > i {
        j - i - 1
    } else {
        n - i + j - 1
    }
}

pub open spec fn spec_neighbours(n: usize, i: usize, j: usize) -> bool {
    i == j || next_index(i, n) == j || next_index(j, n) == i
}

/// Whether two vertices of a polygon with `n` vertices are neighbours, or the same.
#[verifier::when_used_as_spec(spec_neighbours)]
pub fn neighbours(n: usize, i: usize, j: usize) -> (r: bool)
    requires
        i < n,
        j < n,
    ensures
        r == spec_neighbours(n, i, j),
{
    i == j || next_index(i, n) == j || next_index(j, n) == i
}

/// The vertices from vertex `i` to vertex `j`, both among them.
pub open spec fn vertices_from(vertices: Seq<Point>, i: int, j: int) -> Seq<Point> {
    if j > i {
        vertices.subrange(i, j + 1)
    } else {
        vertices.subrange(i, vertices.len() as int) + vertices.subrange(0, j + 1)
    }
}

/// The vertices that are left when those between vertex `i` and vertex `j` are dropped.
pub open spec fn without_between(vertices: Seq<Point>, i: int, j: int) -> Seq<Point> {
    if j > i {
        vertices.subrange(0, i + 1) + vertices.subrange(j, vertices.len() as int)
    } else {
        vertices.subrange(j, i + 1)
    }
}

fn push_range(target: &mut Vec<Point>, source: &[Point], from: usize, to: usize)
    requires
        from <= to <= source@.len(),
    ensures
        final(target)@ == old(target)@ + source@.subrange(from as int, to as int),
{
    let ghost before = target@;
    let mut k: usize = from;
    assert(target@ =~= before + source@.subrange(from as int, k as int));
    while k < to
        invariant
            from <= k <= to <= source@.len(),
            target@ == before + source@.subrange(from as int, k as int),
        decreases to - k,
    {
        target.push(source[k]);
        k = k + 1;
        assert(target@ =~= before + source@.subrange(from as int, k as int));
    }
}

fn collect_from(vertices: &[Point], i: usize, j: usize) -> (r: Vec<Point>)
    requires
        i < vertices@.len(),
        j < vertices@.len(),
    ensures
        r@ == vertices_from(vertices@, i as int, j as int),
{
    let n: usize = vertices.len();
    let mut points: Vec<Point> = Vec::new();
    if j > i {
        push_range(&mut points, vertices, i, j + 1);
        assert(points@ =~= vertices_from(vertices@, i as int, j as int));
    } else {
        push_range(&mut points, vertices, i, n);
        push_range(&mut points, vertices, 0, j + 1);
        assert(points@ =~= vertices_from(vertices@, i as int, j as int));
    }
    points
}

fn drop_between(vertices: &[Point], i: usize, j: usize) -> (r: Vec<Point>)
    requires
        i < vertices@.len(),
        j < vertices@.len(),
    ensures
        r@ == without_between(vertices@, i as int, j as int),
{
    let n: usize = vertices.len();
    let mut points: Vec<Point> = Vec::new();
    if j > i {
        push_range(&mut points, vertices, 0, i + 1);
        push_range(&mut points, vertices, j, n);
        assert(points@ =~= without_between(vertices@, i as int, j as int));
    } else {
        push_range(&mut points, vertices, j, i + 1);
        assert(points@ =~= without_between(vertices@, i as int, j as int));
    }
    points
}

/// Dropping the vertices between two that are no neighbours takes out as many as there
/// are between them, and at least one.
pub proof fn dropping_removes_the_vertices_between(vertices: Seq<Point>, i: usize, j: usize)
    requires
        vertices.len() <= usize::MAX,
        i < vertices.len(),
        j < vertices.len(),
        !neighbours(vertices.len() as usize, i, j),
    ensures
        without_between(vertices, i as int, j as int).len() + vertices_between(
            vertices.len() as usize,
            i,
            j,
        ) == vertices.len(),
        vertices_between(vertices.len() as usize, i, j) >= 1,
{
}

/// Whether an edge crosses or touches one of the chords of a polygon.
pub open spec fn meets_a_chord(vertices: Seq<Point>, edge: Edge) -> bool {
    exists|k: int|
        0 <= k < vertices.len() && (#[trigger] chord_at(vertices, k)).collides_with_edge(edge)
}

pub open spec fn chord_at(vertices: Seq<Point>, k: int) -> Edge {
    Edge {
        start: vertices[k],
        end: crate::geometry::primitives::boundary::successor(vertices, k),
    }
}

fn edge_meets_a_chord(shape: &SPolygon, edge: Edge) -> (r: bool)
    ensures
        r == meets_a_chord(shape.vertices@, edge),
{
    let mut k: usize = 0;
    while k < shape.n_vertices()
        invariant
            k <= shape.vertices@.len(),
            forall|m: int|
                0 <= m < k ==> !(#[trigger] chord_at(shape.vertices@, m)).collides_with_edge(edge),
        decreases shape.vertices.len() - k,
    {
        let chord: Edge = shape.edge(k);
        assert(chord == chord_at(shape.vertices@, k as int));
        if chord.collides_with_edge(edge) {
            return true;
        }
        k = k + 1;
    }
    false
}

/// Vertices `i` and `j` may be joined to close a concavity.
///
/// They are no neighbours and do not coincide. The edge between them, shrunk a little, is
/// short enough; its ends lie outside the polygon if that may only grow, and inside if it
/// may only shrink; and it meets no chord of the polygon. The vertices from the one to the
/// other enclose an area that is small enough: clockwise if the polygon may only grow, and
/// counterclockwise if it may only shrink.
pub open spec fn closes_concavity<M: Fn(Elementary) -> Num>(
    shape: &SPolygon,
    mode: ShapeModifyMode,
    cutoff: (Num, Num),
    i: usize,
    j: usize,
    math: &M,
) -> bool {
    let n = shape.vertices@.len() as usize;
    let (distance_ratio, area_ratio) = cutoff;
    let joint = Edge {
        start: shape.vertices@[i as int],
        end: shape.vertices@[j as int],
    };
    let edge = joint.scale(Num::almost_one());
    let area = crate::geometry::primitives::boundary::chord_area(
        vertices_from(shape.vertices@, i as int, j as int),
    );
    &&& i < n
    &&& j < n
    &&& !neighbours(n, i, j)
    &&& !joint.start.same_as(joint.end)
    &&& !edge.length().gt(distance_ratio.mul(shape.diameter))
    &&& match mode {
        ShapeModifyMode::Inflate => !shape.collides_with(edge.start, math)
            && !shape.collides_with(edge.end, math),
        ShapeModifyMode::Deflate => shape.collides_with(edge.start, math) && shape.collides_with(
            edge.end,
            math,
        ),
    }
    &&& !meets_a_chord(shape.vertices@, edge)
    &&& match mode {
        ShapeModifyMode::Inflate => !area.ge(Num::zero()),
        ShapeModifyMode::Deflate => !area.le(Num::zero()),
    }
    &&& !area.abs().gt(area_ratio.mul(shape.area))
}

fn can_close<M: Fn(Elementary) -> Num>(
    shape: &SPolygon,
    mode: ShapeModifyMode,
    cutoff: (Num, Num),
    i: usize,
    j: usize,
    math: &M,
) -> (r: bool)
    requires
        evaluates(math),
        shape.valid(math),
        i < shape.vertices@.len(),
        j < shape.vertices@.len(),
    ensures
        r == closes_concavity(shape, mode, cutoff, i, j, math),
{
    if neighbours(shape.n_vertices(), i, j) {
        return false;
    }
    let (distance_ratio, area_ratio): (Num, Num) = cutoff;
    let edge: Edge = match Edge::try_new(shape.vertex(i), shape.vertex(j)) {
        Ok(joint) => joint.scale(Num::almost_one()),
        Err(_) => return false,
    };
    if edge.length().gt(distance_ratio.mul(shape.diameter)) {
        return false;
    }
    let start_inside: bool = shape.collides_with(edge.start, math);
    let end_inside: bool = shape.collides_with(edge.end, math);
    match mode {
        ShapeModifyMode::Inflate => {
            if start_inside || end_inside {
                return false;
            }
        },
        ShapeModifyMode::Deflate => {
            if !(start_inside && end_inside) {
                return false;
            }
        },
    }
    if edge_meets_a_chord(shape, edge) {
        return false;
    }
    let enclosed: Vec<Point> = collect_from(&shape.vertices, i, j);
    let area: Num = calculate_chord_area(&enclosed);
    match mode {
        ShapeModifyMode::Inflate => {
            if area.ge(Num::zero()) {
                return false;
            }
        },
        ShapeModifyMode::Deflate => {
            if area.le(Num::zero()) {
                return false;
            }
        },
    }
    !area.abs().gt(area_ratio.mul(shape.area))
}

/// The pair comes before another one: it drops more vertices, or as many and comes first.
pub open spec fn is_preferred(n: usize, pair: (usize, usize), other: (usize, usize)) -> bool {
    let own = vertices_between(n, pair.0, pair.1);
    let others = vertices_between(n, other.0, other.1);
    own > others || (own == others && (pair.0 < other.0 || (pair.0 == other.0 && pair.1
        <= other.1)))
}

/// The pair closes a concavity, and no other that does is preferred to it.
pub open spec fn is_best_pair<M: Fn(Elementary) -> Num>(
    shape: &SPolygon,
    mode: ShapeModifyMode,
    cutoff: (Num, Num),
    pair: (usize, usize),
    math: &M,
) -> bool {
    &&& closes_concavity(shape, mode, cutoff, pair.0, pair.1, math)
    &&& forall|k: usize, l: usize| #[trigger]
        closes_concavity(shape, mode, cutoff, k, l, math) ==> is_preferred(
            shape.vertices@.len() as usize,
            pair,
            (k, l),
        )
}

fn find_best_pair<M: Fn(Elementary) -> Num>(
    shape: &SPolygon,
    mode: ShapeModifyMode,
    cutoff: (Num, Num),
    math: &M,
) -> (r: Option<(usize, usize)>)
    requires
        evaluates(math),
        shape.valid(math),
    ensures
        match r {
            Some(pair) => is_best_pair(shape, mode, cutoff, pair, math),
            None => forall|k: usize, l: usize|
                !#[trigger] closes_concavity(shape, mode, cutoff, k, l, math),
        },
{
    let n: usize = shape.n_vertices();
    let mut best: Option<(usize, usize)> = None;
    let mut i: usize = 0;
    while i < n
        invariant
            i <= n == shape.vertices@.len(),
            evaluates(math),
            shape.valid(math),
            match best {
                Some(pair) => {
                    &&& closes_concavity(shape, mode, cutoff, pair.0, pair.1, math)
                    &&& pair.0 < i
                    &&& forall|k: usize, l: usize|
                        k < i && #[trigger] closes_concavity(shape, mode, cutoff, k, l, math)
                            ==> is_preferred(n, pair, (k, l))
                },
                None => forall|k: usize, l: usize|
                    k < i ==> !#[trigger] closes_concavity(shape, mode, cutoff, k, l, math),
            },
        decreases n - i,
    {
        let mut j: usize = 0;
        while j < n
            invariant
                i < n == shape.vertices@.len(),
                j <= n,
                evaluates(math),
                shape.valid(math),
                match best {
                    Some(pair) => {
                        &&& closes_concavity(shape, mode, cutoff, pair.0, pair.1, math)
                        &&& pair.0 < i || (pair.0 == i && pair.1 < j)
                        &&& forall|k: usize, l: usize|
                            (k < i || (k == i && l < j)) && #[trigger] closes_concavity(
                                shape,
                                mode,
                                cutoff,
                                k,
                                l,
                                math,
                            ) ==> is_preferred(n, pair, (k, l))
                    },
                    None => forall|k: usize, l: usize|
                        k < i || (k == i && l < j) ==> !#[trigger] closes_concavity(
                            shape,
                            mode,
                            cutoff,
                            k,
                            l,
                            math,
                        ),
                },
            decreases n - j,
        {
            if can_close(shape, mode, cutoff, i, j, math) {
                match best {
                    None => {
                        best = Some((i, j));
                    },
                    Some((best_i, best_j)) => {
                        if vertices_between(n, i, j) > vertices_between(n, best_i, best_j) {
                            best = Some((i, j));
                        }
                    },
                }
            }
            j = j + 1;
        }
        i = i + 1;
    }
    best
}

/// `r` is a possible outcome when concavities of a polygon are closed one after the other,
/// at most `steps` of them.
///
/// Each time the best pair of vertices is joined and a polygon is built of the vertices that
/// are left.
pub open spec fn is_closed_up<
    M: Fn(Elementary) -> Num,
    P: Fn(&SPolygon) -> Result<Circle, GeometryError>,
>(
    shape: &SPolygon,
    mode: ShapeModifyMode,
    cutoff: (Num, Num),
    steps: nat,
    tools: &Toolkit<M, P>,
    r: Result<SPolygon, GeometryError>,
) -> bool
    decreases steps,
{
    if steps == 0 || forall|k: usize, l: usize|
        !#[trigger] closes_concavity(shape, mode, cutoff, k, l, &tools.math) {
        r matches Ok(same) && same@ == shape@
    } else {
        exists|pair: (usize, usize), next: Result<SPolygon, GeometryError>|
            {
                let left = without_between(shape.vertices@, pair.0 as int, pair.1 as int);
                &&& #[trigger] is_best_pair(shape, mode, cutoff, pair, &tools.math)
                &&& crate::geometry::primitives::simple_polygon::is_built(
                    left,
                    crate::geometry::primitives::simple_polygon::straight_bulges(left.len()),
                    tools,
                    #[trigger] crate::geometry::primitives::simple_polygon::modelled(next),
                )
                &&& match next {
                    Err(e) => r == Err::<SPolygon, _>(e),
                    Ok(smaller) => is_closed_up(
                        &smaller,
                        mode,
                        cutoff,
                        (steps - 1) as nat,
                        tools,
                        r,
                    ),
                }
            }
    }
}

/// What depends on the content of a polygon alone is the same for polygons of equal content.
proof fn lemma_same_content<
    M: Fn(Elementary) -> Num,
    P: Fn(&SPolygon) -> Result<Circle, GeometryError>,
>(
    a: &SPolygon,
    b: &SPolygon,
    mode: ShapeModifyMode,
    cutoff: (Num, Num),
    steps: nat,
    tools: &Toolkit<M, P>,
    r: Result<SPolygon, GeometryError>,
)
    requires
        a@ == b@,
        is_closed_up(a, mode, cutoff, steps, tools, r),
    ensures
        is_closed_up(b, mode, cutoff, steps, tools, r),
{
    assert forall|k: usize, l: usize| #[trigger]
        closes_concavity(a, mode, cutoff, k, l, &tools.math) == closes_concavity(
            b,
            mode,
            cutoff,
            k,
            l,
            &tools.math,
        ) by {
        lemma_same_closure(a, b, mode, cutoff, k, l, &tools.math);
    }
    assert forall|k: usize, l: usize| #[trigger]
        closes_concavity(b, mode, cutoff, k, l, &tools.math) == closes_concavity(
            a,
            mode,
            cutoff,
            k,
            l,
            &tools.math,
        ) by {
        lemma_same_closure(a, b, mode, cutoff, k, l, &tools.math);
    }
    if steps > 0 && exists|k: usize, l: usize| #[trigger]
        closes_concavity(a, mode, cutoff, k, l, &tools.math) {
        let (pair, next) = choose|pair: (usize, usize), next: Result<SPolygon, GeometryError>|
            {
                let left = without_between(a.vertices@, pair.0 as int, pair.1 as int);
                &&& #[trigger] is_best_pair(a, mode, cutoff, pair, &tools.math)
                &&& crate::geometry::primitives::simple_polygon::is_built(
                    left,
                    crate::geometry::primitives::simple_polygon::straight_bulges(left.len()),
                    tools,
                    #[trigger] crate::geometry::primitives::simple_polygon::modelled(next),
                )
                &&& match next {
                    Err(e) => r == Err::<SPolygon, _>(e),
                    Ok(smaller) => is_closed_up(
                        &smaller,
                        mode,
                        cutoff,
                        (steps - 1) as nat,
                        tools,
                        r,
                    ),
                }
            };
        assert(is_best_pair(b, mode, cutoff, pair, &tools.math));
    }
}

proof fn lemma_same_closure<M: Fn(Elementary) -> Num>(
    a: &SPolygon,
    b: &SPolygon,
    mode: ShapeModifyMode,
    cutoff: (Num, Num),
    k: usize,
    l: usize,
    math: &M,
)
    requires
        a@ == b@,
    ensures
        closes_concavity(a, mode, cutoff, k, l, math) == closes_concavity(
            b,
            mode,
            cutoff,
            k,
            l,
            math,
        ),
{
    assert(a@.vertices == b@.vertices);
    assert(a@.bbox == b@.bbox);
    assert(a@.diameter == b@.diameter);
    assert(a@.area == b@.area);
}

fn close_some<
    M: Fn(Elementary) -> Num,
    P: Fn(&SPolygon) -> Result<Circle, GeometryError>,
>(
    shape: SPolygon,
    mode: ShapeModifyMode,
    cutoff: (Num, Num),
    steps: usize,
    tools: &Toolkit<M, P>,
) -> (r: Result<SPolygon, GeometryError>)
    requires
        tools.usable(),
        shape.valid(&tools.math),
    ensures
        is_closed_up(&shape, mode, cutoff, steps as nat, tools, r),
        r matches Ok(s) ==> s.valid(&tools.math),
    decreases steps,
{
    if steps == 0 {
        return Ok(shape);
    }
    match find_best_pair(&shape, mode, cutoff, &tools.math) {
        None => Ok(shape),
        Some(pair) => {
            let (i, j): (usize, usize) = pair;
            let left: Vec<Point> = drop_between(&shape.vertices, i, j);
            assert(closes_concavity(&shape, mode, cutoff, i, j, &tools.math));
            assert(is_best_pair(&shape, mode, cutoff, pair, &tools.math));
            let next: Result<SPolygon, GeometryError> = SPolygon::new(left, tools);
            let ghost built = crate::geometry::primitives::simple_polygon::modelled(next);
            match next {
                Ok(smaller) => close_some(smaller, mode, cutoff, steps - 1, tools),
                Err(e) => Err(e),
            }
        },
    }
}

/// `r` is a possible outcome when the narrow concavities of a polygon are closed: a polygon with
/// arcs stays as it is, and one without is closed up, as often as it has vertices.
pub open spec fn is_closing<
    M: Fn(Elementary) -> Num,
    P: Fn(&SPolygon) -> Result<Circle, GeometryError>,
>(
    shape: &SPolygon,
    mode: ShapeModifyMode,
    cutoff: (Num, Num),
    tools: &Toolkit<M, P>,
    r: Result<SPolygon, GeometryError>,
) -> bool {
    if shape.has_arcs() {
        r matches Ok(same) && same@ == shape@
    } else {
        is_closed_up(shape, mode, cutoff, shape.vertices@.len(), tools, r)
    }
}

/// Closes narrow concavities of a polygon by joining their ends and dropping the vertices in
/// between, as often as the polygon has vertices.
///
/// A polygon with arcs stays as it is.
pub fn close_narrow_concavities<
    M: Fn(Elementary) -> Num,
    P: Fn(&SPolygon) -> Result<Circle, GeometryError>,
>(
    orig_shape: &SPolygon,
    mode: ShapeModifyMode,
    cutoff: (Num, Num),
    tools: &Toolkit<M, P>,
) -> (r: Result<SPolygon, GeometryError>)
    requires
        tools.usable(),
        !orig_shape.has_arcs() ==> orig_shape.valid(&tools.math),
    ensures
        is_closing(orig_shape, mode, cutoff, tools, r),
        r matches Ok(s) ==> orig_shape.valid(&tools.math) ==> s.valid(&tools.math),
{
    let copy: SPolygon = orig_shape.duplicate();
    if orig_shape.has_arcs() {
        return Ok(copy);
    }
    let ghost given = copy;
    let r: Result<SPolygon, GeometryError> = close_some(
        copy,
        mode,
        cutoff,
        orig_shape.n_vertices(),
        tools,
    );
    proof {
        lemma_same_content(
            &given,
            orig_shape,
            mode,
            cutoff,
            orig_shape.vertices@.len(),
            tools,
            r,
        );
    }
    r
}

/// Closing concavities never adds vertices, and leaves a polygon as it is if it drops none.
pub proof fn closing_never_adds_vertices<
    M: Fn(Elementary) -> Num,
    P: Fn(&SPolygon) -> Result<Circle, GeometryError>,
>(
    shape: &SPolygon,
    mode: ShapeModifyMode,
    cutoff: (Num, Num),
    steps: nat,
    tools: &Toolkit<M, P>,
    closed: SPolygon,
)
    requires
        shape.vertices@.len() <= usize::MAX,
        is_closed_up(shape, mode, cutoff, steps, tools, Ok(closed)),
    ensures
        closed.vertices@.len() <= shape.vertices@.len(),
        closed.vertices@.len() == shape.vertices@.len() ==> closed@ == shape@,
    decreases steps,
{
    if steps > 0 && exists|k: usize, l: usize| #[trigger]
        closes_concavity(shape, mode, cutoff, k, l, &tools.math) {
        let r = Ok::<SPolygon, GeometryError>(closed);
        let (pair, next) = choose|pair: (usize, usize), next: Result<SPolygon, GeometryError>|
            {
                let left = without_between(shape.vertices@, pair.0 as int, pair.1 as int);
                &&& #[trigger] is_best_pair(shape, mode, cutoff, pair, &tools.math)
                &&& crate::geometry::primitives::simple_polygon::is_built(
                    left,
                    crate::geometry::primitives::simple_polygon::straight_bulges(left.len()),
                    tools,
                    #[trigger] crate::geometry::primitives::simple_polygon::modelled(next),
                )
                &&& match next {
                    Err(e) => r == Err::<SPolygon, _>(e),
                    Ok(smaller) => is_closed_up(
                        &smaller,
                        mode,
                        cutoff,
                        (steps - 1) as nat,
                        tools,
                        r,
                    ),
                }
            };
        let left = without_between(shape.vertices@, pair.0 as int, pair.1 as int);
        dropping_removes_the_vertices_between(shape.vertices@, pair.0, pair.1);
        let smaller = next->Ok_0;
        crate::geometry::primitives::laws::built_polygons_keep_the_vertices(
            left,
            crate::geometry::primitives::simple_polygon::straight_bulges(left.len()),
            tools,
            smaller@,
        );
        closing_never_adds_vertices(&smaller, mode, cutoff, (steps - 1) as nat, tools, closed);
    }
}

/// The polygon that is left and the one that was enclosed make up the polygon: each measure of the
/// two adds up to its own.
#[verifier::spinoff_prover]
pub proof fn what_is_enclosed_accounts_for_the_rest(
    side: spec_fn(Point, Point) -> int,
    vertices: Seq<Point>,
    i: int,
    j: int,
)
    requires
        crate::geometry::primitives::exact_outlines::is_signed(side),
        0 <= i < vertices.len(),
        0 <= j < vertices.len(),
        i != j,
    ensures
        crate::geometry::primitives::exact_outlines::around(side, vertices)
            == crate::geometry::primitives::exact_outlines::around(
            side,
            without_between(vertices, i, j),
        ) + crate::geometry::primitives::exact_outlines::around(
            side,
            vertices_from(vertices, i, j),
        ),
{
    let n = vertices.len() as int;
    let left = without_between(vertices, i, j);
    let enclosed = vertices_from(vertices, i, j);
    assert(side(vertices[j], vertices[i]) == -side(vertices[i], vertices[j]));
    if i < j {
        let a = vertices.subrange(0, i + 1);
        let c = vertices.subrange(j, n);
        crate::geometry::primitives::exact_outlines::paths_can_be_cut_twice(side, vertices, i, j);
        assert(left == a + c);
        crate::geometry::primitives::exact_outlines::paths_add_up(side, a, c);
        assert(left.last() == vertices.last() && left[0] == vertices[0]);
        assert(enclosed.last() == vertices[j] && enclosed[0] == vertices[i]);
    } else {
        let a = vertices.subrange(0, j + 1);
        let c = vertices.subrange(i, n);
        crate::geometry::primitives::exact_outlines::paths_can_be_cut_twice(side, vertices, j, i);
        assert(enclosed == c + a);
        crate::geometry::primitives::exact_outlines::paths_add_up(side, c, a);
        assert(enclosed.last() == vertices[j] && enclosed[0] == vertices[i]);
        assert(left.last() == vertices[i] && left[0] == vertices[j]);
    }
}

/// Without rounding, the areas of the polygon that is left and of the one that was enclosed add up
/// to the area of the polygon, and so do their windings about any place.
pub proof fn what_is_enclosed_accounts_for_the_area(
    vertices: Seq<Point>,
    i: int,
    j: int,
    place: (int, int),
)
    requires
        0 <= i < vertices.len(),
        0 <= j < vertices.len(),
        i != j,
    ensures
        crate::geometry::primitives::exact_outlines::twice_the_area(vertices)
            == crate::geometry::primitives::exact_outlines::twice_the_area(
            without_between(vertices, i, j),
        ) + crate::geometry::primitives::exact_outlines::twice_the_area(
            vertices_from(vertices, i, j),
        ),
        crate::geometry::primitives::exact_outlines::winding(vertices, place)
            == crate::geometry::primitives::exact_outlines::winding(
            without_between(vertices, i, j),
            place,
        ) + crate::geometry::primitives::exact_outlines::winding(
            vertices_from(vertices, i, j),
            place,
        ),
{
    crate::geometry::primitives::exact_outlines::areas_and_windings_are_signed(place);
    what_is_enclosed_accounts_for_the_rest(
        crate::geometry::primitives::exact_outlines::area_measure(),
        vertices,
        i,
        j,
    );
    what_is_enclosed_accounts_for_the_rest(
        crate::geometry::primitives::exact_outlines::winding_measure(place),
        vertices,
        i,
        j,
    );
}

/// When vertices are joined so that the polygon may only grow, the edge between them, shrunk a
/// little, has its ends outside the polygon and meets no chord of it, and the vertices from the
/// one to the other do not enclose an area counterclockwise.
pub proof fn polygons_that_may_only_grow_are_joined_outside<M: Fn(Elementary) -> Num>(
    shape: &SPolygon,
    cutoff: (Num, Num),
    pair: (usize, usize),
    math: &M,
)
    requires
        is_best_pair(shape, ShapeModifyMode::Inflate, cutoff, pair, math),
    ensures
        ({
            let joint = Edge {
                start: shape.vertices@[pair.0 as int],
                end: shape.vertices@[pair.1 as int],
            };
            let edge = joint.scale(Num::almost_one());
            &&& !shape.collides_with(edge.start, math)
            &&& !shape.collides_with(edge.end, math)
            &&& !meets_a_chord(shape.vertices@, edge)
            &&& !crate::geometry::primitives::boundary::chord_area(
                vertices_from(shape.vertices@, pair.0 as int, pair.1 as int),
            ).ge(Num::zero())
        }),
{
    assert(closes_concavity(shape, ShapeModifyMode::Inflate, cutoff, pair.0, pair.1, math));
}

/// When vertices are joined so that the polygon may only shrink, the edge between them, shrunk a
/// little, has its ends inside the polygon and meets no chord of it, and the vertices from the
/// one to the other do not enclose an area clockwise.
pub proof fn polygons_that_may_only_shrink_are_joined_inside<M: Fn(Elementary) -> Num>(
    shape: &SPolygon,
    cutoff: (Num, Num),
    pair: (usize, usize),
    math: &M,
)
    requires
        is_best_pair(shape, ShapeModifyMode::Deflate, cutoff, pair, math),
    ensures
        ({
            let joint = Edge {
                start: shape.vertices@[pair.0 as int],
                end: shape.vertices@[pair.1 as int],
            };
            let edge = joint.scale(Num::almost_one());
            &&& shape.collides_with(edge.start, math)
            &&& shape.collides_with(edge.end, math)
            &&& !meets_a_chord(shape.vertices@, edge)
            &&& !crate::geometry::primitives::boundary::chord_area(
                vertices_from(shape.vertices@, pair.0 as int, pair.1 as int),
            ).le(Num::zero())
        }),
{
    assert(closes_concavity(shape, ShapeModifyMode::Deflate, cutoff, pair.0, pair.1, math));
}

/// After as many steps as there are vertices, no two vertices are left that close a concavity.
proof fn lemma_nothing_is_left_to_close<
    M: Fn(Elementary) -> Num,
    P: Fn(&SPolygon) -> Result<Circle, GeometryError>,
>(
    shape: &SPolygon,
    mode: ShapeModifyMode,
    cutoff: (Num, Num),
    steps: nat,
    tools: &Toolkit<M, P>,
    closed: SPolygon,
)
    requires
        shape.vertices@.len() <= usize::MAX,
        steps >= shape.vertices@.len(),
        is_closed_up(shape, mode, cutoff, steps, tools, Ok(closed)),
    ensures
        forall|k: usize, l: usize|
            !#[trigger] closes_concavity(&closed, mode, cutoff, k, l, &tools.math),
    decreases steps,
{
    if steps > 0 && exists|k: usize, l: usize| #[trigger]
        closes_concavity(shape, mode, cutoff, k, l, &tools.math) {
        let r = Ok::<SPolygon, GeometryError>(closed);
        let (pair, next) = choose|pair: (usize, usize), next: Result<SPolygon, GeometryError>|
            {
                let left = without_between(shape.vertices@, pair.0 as int, pair.1 as int);
                &&& #[trigger] is_best_pair(shape, mode, cutoff, pair, &tools.math)
                &&& crate::geometry::primitives::simple_polygon::is_built(
                    left,
                    crate::geometry::primitives::simple_polygon::straight_bulges(left.len()),
                    tools,
                    #[trigger] crate::geometry::primitives::simple_polygon::modelled(next),
                )
                &&& match next {
                    Err(e) => r == Err::<SPolygon, _>(e),
                    Ok(smaller) => is_closed_up(
                        &smaller,
                        mode,
                        cutoff,
                        (steps - 1) as nat,
                        tools,
                        r,
                    ),
                }
            };
        let left = without_between(shape.vertices@, pair.0 as int, pair.1 as int);
        dropping_removes_the_vertices_between(shape.vertices@, pair.0, pair.1);
        let smaller = next->Ok_0;
        crate::geometry::primitives::laws::built_polygons_keep_the_vertices(
            left,
            crate::geometry::primitives::simple_polygon::straight_bulges(left.len()),
            tools,
            smaller@,
        );
        lemma_nothing_is_left_to_close(
            &smaller,
            mode,
            cutoff,
            (steps - 1) as nat,
            tools,
            closed,
        );
    } else {
        assert forall|k: usize, l: usize|
            !#[trigger] closes_concavity(&closed, mode, cutoff, k, l, &tools.math) by {
            lemma_same_closure(shape, &closed, mode, cutoff, k, l, &tools.math);
        }
    }
}

/// Closing concavities a second time, with the same bounds, changes nothing.
pub proof fn closing_again_changes_nothing<
    M: Fn(Elementary) -> Num,
    P: Fn(&SPolygon) -> Result<Circle, GeometryError>,
>(
    shape: &SPolygon,
    mode: ShapeModifyMode,
    cutoff: (Num, Num),
    tools: &Toolkit<M, P>,
    closed: SPolygon,
    again: Result<SPolygon, GeometryError>,
)
    requires
        shape.vertices@.len() <= usize::MAX,
        is_closing(shape, mode, cutoff, tools, Ok(closed)),
        is_closing(&closed, mode, cutoff, tools, again),
    ensures
        again matches Ok(same) && same@ == closed@,
{
    if !closed.has_arcs() {
        if shape.has_arcs() {
            assert(shape@.bulges == closed@.bulges);
        } else {
            lemma_nothing_is_left_to_close(
                shape,
                mode,
                cutoff,
                shape.vertices@.len(),
                tools,
                closed,
            );
        }
    }
}

/// No concavity is narrower than nothing: with a distance of zero, a polygon stays as it is.
///
/// The edges that could close one have a length that is a positive number, and so has the
/// polygon a diameter.
pub proof fn a_distance_of_zero_closes_nothing<
    M: Fn(Elementary) -> Num,
    P: Fn(&SPolygon) -> Result<Circle, GeometryError>,
>(
    shape: &SPolygon,
    mode: ShapeModifyMode,
    cutoff: (Num, Num),
    tools: &Toolkit<M, P>,
    r: Result<SPolygon, GeometryError>,
)
    requires
        cutoff.0.num_eq(Num::zero()),
        shape.diameter.is_finite(),
        forall|i: int, j: int|
            0 <= i < shape.vertices@.len() && 0 <= j < shape.vertices@.len() && !(
            #[trigger] shape.vertices@[i]).same_as(#[trigger] shape.vertices@[j]) ==> (Edge {
                start: shape.vertices@[i],
                end: shape.vertices@[j],
            }).scale(Num::almost_one()).length().gt(Num::zero()),
        is_closing(shape, mode, cutoff, tools, r),
    ensures
        r matches Ok(same) && same@ == shape@,
{
    let limit = cutoff.0.mul(shape.diameter);
    crate::num::laws::zeros_stay_zeros(cutoff.0, shape.diameter);
    assert(crate::num::laws::is_zero(limit));
    assert forall|k: usize, l: usize|
        !#[trigger] closes_concavity(shape, mode, cutoff, k, l, &tools.math) by {
        if closes_concavity(shape, mode, cutoff, k, l, &tools.math) {
            let edge = (Edge {
                start: shape.vertices@[k as int],
                end: shape.vertices@[l as int],
            }).scale(Num::almost_one());
            assert(edge.length().gt(Num::zero()));
            assert(edge.length().gt(limit));
        }
    }
}

/// Without rounding, what two vertices enclose when they are joined measures no more than nothing
/// if the polygon may only grow, and no less if it may only shrink.
pub open spec fn encloses_exactly(
    side: spec_fn(Point, Point) -> int,
    vertices: Seq<Point>,
    mode: ShapeModifyMode,
    i: int,
    j: int,
) -> bool {
    let enclosed = crate::geometry::primitives::exact_outlines::around(
        side,
        vertices_from(vertices, i, j),
    );
    match mode {
        ShapeModifyMode::Inflate => enclosed <= 0,
        ShapeModifyMode::Deflate => enclosed >= 0,
    }
}

/// An area that is clearly enclosed, by more than the steps on the way to it, is enclosed without
/// rounding.
pub proof fn clear_areas_are_enclosed_exactly(
    vertices: Seq<Point>,
    mode: ShapeModifyMode,
    i: int,
    j: int,
)
    requires
        0 <= i < vertices.len(),
        0 <= j < vertices.len(),
        i != j,
        ({
            let enclosed = vertices_from(vertices, i, j);
            let area = crate::geometry::primitives::boundary::chord_area(enclosed);
            let steps = crate::geometry::primitives::exact_signs::chord_area_steps(enclosed);
            &&& area.is_finite()
            &&& match mode {
                ShapeModifyMode::Inflate => -4 * (area.value() * Num::one_in_units()) > steps,
                ShapeModifyMode::Deflate => 4 * (area.value() * Num::one_in_units()) > steps,
            }
        }),
    ensures
        encloses_exactly(
            crate::geometry::primitives::exact_outlines::area_measure(),
            vertices,
            mode,
            i,
            j,
        ),
{
    crate::geometry::primitives::exact_signs::clear_areas_have_the_right_sign(
        vertices_from(vertices, i, j),
    );
}

/// Every pair of vertices that is joined on the way encloses without rounding what it was computed
/// to enclose, by the given measure, and every polygon on the way is built of the vertices that are
/// left as they stand.
pub open spec fn all_enclose_exactly<
    M: Fn(Elementary) -> Num,
    P: Fn(&SPolygon) -> Result<Circle, GeometryError>,
>(
    side: spec_fn(Point, Point) -> int,
    shape: &SPolygon,
    mode: ShapeModifyMode,
    cutoff: (Num, Num),
    steps: nat,
    tools: &Toolkit<M, P>,
) -> bool
    decreases steps,
{
    steps > 0 ==> forall|pair: (usize, usize), next: SPolygon|
        {
            let left = without_between(shape.vertices@, pair.0 as int, pair.1 as int);
            #[trigger] is_best_pair(shape, mode, cutoff, pair, &tools.math)
                && crate::geometry::primitives::simple_polygon::is_built(
                left,
                crate::geometry::primitives::simple_polygon::straight_bulges(left.len()),
                tools,
                Ok(#[trigger] next@),
            ) ==> {
                &&& encloses_exactly(
                    side,
                    shape.vertices@,
                    mode,
                    pair.0 as int,
                    pair.1 as int,
                )
                &&& next.vertices@ == left
                &&& all_enclose_exactly(side, &next, mode, cutoff, (steps - 1) as nat, tools)
            }
        }
}

/// A polygon whose concavities were closed measures no less than the given one if it may only grow,
/// and no more if it may only shrink, provided that every pair of vertices that is joined encloses
/// without rounding what it was computed to enclose.
///
/// The measure may be the area, or the winding about any place: a polygon that winds about no place
/// less often contains the other one.
pub proof fn closed_polygons_grow_or_shrink_as_they_may<
    M: Fn(Elementary) -> Num,
    P: Fn(&SPolygon) -> Result<Circle, GeometryError>,
>(
    side: spec_fn(Point, Point) -> int,
    shape: &SPolygon,
    mode: ShapeModifyMode,
    cutoff: (Num, Num),
    tools: &Toolkit<M, P>,
    closed: SPolygon,
)
    requires
        crate::geometry::primitives::exact_outlines::is_signed(side),
        shape.vertices@.len() <= usize::MAX,
        is_closing(shape, mode, cutoff, tools, Ok(closed)),
        !shape.has_arcs() ==> all_enclose_exactly(
            side,
            shape,
            mode,
            cutoff,
            shape.vertices@.len(),
            tools,
        ),
    ensures
        crate::geometry::shape_modification::growth::measures_as_it_may(
            side,
            shape.vertices@,
            closed.vertices@,
            mode,
        ),
{
    if shape.has_arcs() {
        assert(closed@.vertices == shape@.vertices);
    } else {
        lemma_closing_steps(side, shape, mode, cutoff, shape.vertices@.len(), tools, closed);
    }
}

proof fn lemma_closing_steps<
    M: Fn(Elementary) -> Num,
    P: Fn(&SPolygon) -> Result<Circle, GeometryError>,
>(
    side: spec_fn(Point, Point) -> int,
    shape: &SPolygon,
    mode: ShapeModifyMode,
    cutoff: (Num, Num),
    steps: nat,
    tools: &Toolkit<M, P>,
    closed: SPolygon,
)
    requires
        crate::geometry::primitives::exact_outlines::is_signed(side),
        shape.vertices@.len() <= usize::MAX,
        is_closed_up(shape, mode, cutoff, steps, tools, Ok(closed)),
        all_enclose_exactly(side, shape, mode, cutoff, steps, tools),
    ensures
        crate::geometry::shape_modification::growth::measures_as_it_may(
            side,
            shape.vertices@,
            closed.vertices@,
            mode,
        ),
    decreases steps,
{
    if steps > 0 && exists|k: usize, l: usize| #[trigger]
        closes_concavity(shape, mode, cutoff, k, l, &tools.math) {
        let r = Ok::<SPolygon, GeometryError>(closed);
        let (pair, next) = choose|pair: (usize, usize), next: Result<SPolygon, GeometryError>|
            {
                let left = without_between(shape.vertices@, pair.0 as int, pair.1 as int);
                &&& #[trigger] is_best_pair(shape, mode, cutoff, pair, &tools.math)
                &&& crate::geometry::primitives::simple_polygon::is_built(
                    left,
                    crate::geometry::primitives::simple_polygon::straight_bulges(left.len()),
                    tools,
                    #[trigger] crate::geometry::primitives::simple_polygon::modelled(next),
                )
                &&& match next {
                    Err(e) => r == Err::<SPolygon, _>(e),
                    Ok(smaller) => is_closed_up(
                        &smaller,
                        mode,
                        cutoff,
                        (steps - 1) as nat,
                        tools,
                        r,
                    ),
                }
            };
        let left = without_between(shape.vertices@, pair.0 as int, pair.1 as int);
        let smaller = next->Ok_0;
        assert(closes_concavity(shape, mode, cutoff, pair.0, pair.1, &tools.math));
        dropping_removes_the_vertices_between(shape.vertices@, pair.0, pair.1);
        assert(is_best_pair(shape, mode, cutoff, pair, &tools.math));
        assert(crate::geometry::primitives::simple_polygon::is_built(
            left,
            crate::geometry::primitives::simple_polygon::straight_bulges(left.len()),
            tools,
            Ok(smaller@),
        ));
        assert(smaller.vertices@ == left);
        what_is_enclosed_accounts_for_the_rest(
            side,
            shape.vertices@,
            pair.0 as int,
            pair.1 as int,
        );
        lemma_closing_steps(side, &smaller, mode, cutoff, (steps - 1) as nat, tools, closed);
    } else {
        assert(closed@.vertices == shape@.vertices);
    }
}

} // verus!
