//! A scene to look at: a large sphere for the ground, three large spheres
//! of glass, clay and metal on it, and a field of small spheres of random
//! place and make between them.

use vstd::prelude::*;
use crate::hitable_list::HitableList;
use crate::material::Material;
use crate::sampler::{is_unit_draw, lemma_rest_of_rest, rest, Sampler, Stream};
use crate::scalar::Scalar;
use crate::sphere::Sphere;
use crate::vec3::Vec3;

verus! {

/// The small spheres stand on a grid whose cells run from `-GRID` to
/// `GRID - 1` in both directions.
pub const GRID: i32 = 11;

/// The vector of the three integers.
pub open spec fn whole(x: int, y: int, z: int) -> Vec3 {
    Vec3 { x: Scalar::of_int(x), y: Scalar::of_int(y), z: Scalar::of_int(z) }
}

/// The ground: a grey diffuse sphere of radius 1000 that touches the
/// origin from below.
pub open spec fn ground_spec() -> Sphere {
    Sphere {
        center: whole(0, -1000, 0),
        radius: Scalar::of_int(1000),
        material: Material::Lambertian {
            albedo: Vec3 {
                x: Scalar::of_ratio(1, 2),
                y: Scalar::of_ratio(1, 2),
                z: Scalar::of_ratio(1, 2),
            },
        },
    }
}

/// The three large spheres of radius one: glass in the middle, brown clay
/// behind it and polished metal before it.
pub open spec fn centrepiece_spec(k: int) -> Sphere {
    if k == 0 {
        Sphere {
            center: whole(0, 1, 0),
            radius: Scalar::of_int(1),
            material: Material::Dielectric { refraction_index: Scalar::of_ratio(3, 2) },
        }
    } else if k == 1 {
        Sphere {
            center: whole(-4, 1, 0),
            radius: Scalar::of_int(1),
            material: Material::Lambertian {
                albedo: Vec3 {
                    x: Scalar::of_ratio(2, 5),
                    y: Scalar::of_ratio(1, 5),
                    z: Scalar::of_ratio(1, 10),
                },
            },
        }
    } else {
        Sphere {
            center: whole(4, 1, 0),
            radius: Scalar::of_int(1),
            material: Material::Metal {
                albedo: Vec3 {
                    x: Scalar::of_ratio(7, 10),
                    y: Scalar::of_ratio(3, 5),
                    z: Scalar::of_ratio(1, 2),
                },
                fuzz: Scalar::of_int(0),
            },
        }
    }
}

/// The centre of the small sphere of the grid cell `(a, b)`, moved within
/// the cell by two draws: `(a + 0.9 u, 0.2, b + 0.9 v)`.
pub open spec fn little_center_spec(a: int, b: int, u: Scalar, v: Scalar) -> Vec3 {
    Vec3 {
        x: Scalar::of_int(a).plus(Scalar::of_ratio(9, 10).times(u)),
        y: Scalar::of_ratio(1, 5),
        z: Scalar::of_int(b).plus(Scalar::of_ratio(9, 10).times(v)),
    }
}

/// Whether a small sphere at `center` keeps clear of the metal
/// centrepiece: its distance from `(4, 0.2, 0)` is more than 0.9.
pub open spec fn is_clear(center: Vec3) -> bool {
    center.minus(
        Vec3 { x: Scalar::of_int(4), y: Scalar::of_ratio(1, 5), z: Scalar::of_int(0) },
    ).norm_spec()@ > Scalar::of_ratio(9, 10)@
}

/// A channel of the colour of a small metal sphere: `0.5 (1 + d)`.
pub open spec fn bright(d: Scalar) -> Scalar {
    Scalar::of_ratio(1, 2).times(Scalar::of_int(1).plus(d))
}

/// The material of a small sphere. Where `choice` is below 0.8 it is
/// diffuse, each channel of its colour the product of two draws; where
/// `choice` is below 0.95 it is metal, bright and with a fuzz below one
/// half; else it is glass.
pub open spec fn little_material_spec(
    choice: Scalar,
    d1: Scalar,
    d2: Scalar,
    d3: Scalar,
    d4: Scalar,
    d5: Scalar,
    d6: Scalar,
) -> Material {
    if choice@ < Scalar::of_ratio(4, 5)@ {
        Material::Lambertian { albedo: Vec3 { x: d1.times(d2), y: d3.times(d4), z: d5.times(d6) } }
    } else if choice@ < Scalar::of_ratio(19, 20)@ {
        Material::Metal {
            albedo: Vec3 { x: bright(d1), y: bright(d2), z: bright(d3) },
            fuzz: Scalar::of_ratio(1, 2).times(d4),
        }
    } else {
        Material::Dielectric { refraction_index: Scalar::of_ratio(3, 2) }
    }
}

/// The draws that make one small sphere.
#[derive(Clone, Copy, Debug)]
pub struct Draws {
    /// Moves the centre within its cell along x.
    pub u: Scalar,
    /// Moves the centre within its cell along z.
    pub v: Scalar,
    /// Chooses the kind of material.
    pub choice: Scalar,
    /// The colour and the fuzz.
    pub d1: Scalar,
    pub d2: Scalar,
    pub d3: Scalar,
    pub d4: Scalar,
    pub d5: Scalar,
    pub d6: Scalar,
}

impl Draws {
    /// Whether each draw lies in the unit interval.
    pub open spec fn in_unit_interval(self) -> bool {
        &&& is_unit_draw(self.u)
        &&& is_unit_draw(self.v)
        &&& is_unit_draw(self.choice)
        &&& is_unit_draw(self.d1)
        &&& is_unit_draw(self.d2)
        &&& is_unit_draw(self.d3)
        &&& is_unit_draw(self.d4)
        &&& is_unit_draw(self.d5)
        &&& is_unit_draw(self.d6)
    }
}

/// The small sphere of the grid cell `(a, b)` for the given draws: of
/// radius 0.2, resting on the ground.
pub open spec fn little_sphere_spec(a: int, b: int, draws: Draws) -> Sphere {
    Sphere {
        center: little_center_spec(a, b, draws.u, draws.v),
        radius: Scalar::of_ratio(1, 5),
        material: little_material_spec(
            draws.choice,
            draws.d1,
            draws.d2,
            draws.d3,
            draws.d4,
            draws.d5,
            draws.d6,
        ),
    }
}

/// The small sphere of the grid cell `(a, b)` for the given draws, unless
/// it would stand too near to the metal centrepiece.
pub open spec fn little_sphere_at(a: int, b: int, draws: Draws) -> Option<Sphere> {
    if is_clear(little_center_spec(a, b, draws.u, draws.v)) {
        Some(little_sphere_spec(a, b, draws))
    } else {
        None
    }
}

/// The number of cells of the grid.
pub open spec fn cells() -> int {
    4 * GRID * GRID
}

/// The first coordinate of the cell of number `k`, where the cells are
/// counted row by row.
pub open spec fn cell_a(k: int) -> int {
    k / (2 * GRID) - GRID
}

/// The second coordinate of the cell of number `k`.
pub open spec fn cell_b(k: int) -> int {
    k % (2 * GRID) - GRID
}

/// The small spheres of the first cells of the grid, one for each of
/// `draws` unless it is left out, in the order of the cells.
pub open spec fn field_spec(draws: Seq<Draws>) -> Seq<Sphere>
    decreases draws.len(),
{
    if draws.len() == 0 {
        Seq::empty()
    } else {
        let k = draws.len() - 1;
        let before = field_spec(draws.drop_last());
        match little_sphere_at(cell_a(k), cell_b(k), draws.last()) {
            Some(s) => before.push(s),
            None => before,
        }
    }
}

/// The scene for the given draws, one set for each cell: the ground
/// first, then the small spheres, and the three centrepieces last.
pub open spec fn scene_spec(draws: Seq<Draws>) -> Seq<Sphere> {
    seq![ground_spec()] + field_spec(draws) + seq![
        centrepiece_spec(0),
        centrepiece_spec(1),
        centrepiece_spec(2),
    ]
}

/// Whether `spheres` can be the scene of [`random_scene`]: the scene for
/// some draws from the unit interval.
pub open spec fn is_random_scene(spheres: Seq<Sphere>) -> bool {
    exists|draws: Seq<Draws>|
        {
            &&& draws.len() == cells()
            &&& forall|k: int| 0 <= k < draws.len() ==> (#[trigger] draws[k]).in_unit_interval()
            &&& spheres == #[trigger] scene_spec(draws)
        }
}

/// Whether `s` is a small sphere of some cell of the grid for some draws
/// from the unit interval, clear of the metal centrepiece.
pub open spec fn is_little_sphere(s: Sphere) -> bool {
    exists|a: int, b: int, draws: Draws|
        -GRID <= a < GRID && -GRID <= b < GRID && draws.in_unit_interval()
            && #[trigger] little_sphere_at(a, b, draws) == Some(s)
}

/// The cell of number `k` lies on the grid.
pub proof fn lemma_cell_on_grid(k: int)
    requires
        0 <= k < cells(),
    ensures
        -GRID <= cell_a(k) < GRID,
        -GRID <= cell_b(k) < GRID,
        k == (cell_a(k) + GRID) * (2 * GRID) + (cell_b(k) + GRID),
{
    vstd::arithmetic::div_mod::lemma_fundamental_div_mod(k, 2 * GRID);
    assert(0 <= k / 22 < 22);
}

/// The cell `(a, b)` has the number `(a + GRID) * 2 GRID + (b + GRID)`.
pub proof fn lemma_cell_number(a: int, b: int)
    requires
        -GRID <= a < GRID,
        -GRID <= b < GRID,
    ensures
        cell_a((a + GRID) * (2 * GRID) + (b + GRID)) == a,
        cell_b((a + GRID) * (2 * GRID) + (b + GRID)) == b,
{
    let k = (a + GRID) * (2 * GRID) + (b + GRID);
    vstd::arithmetic::div_mod::lemma_fundamental_div_mod_converse(
        k,
        2 * GRID,
        a + GRID,
        b + GRID,
    );
}

/// The field has at most one sphere for each cell, and each is a small
/// sphere of the grid.
pub proof fn lemma_field_shape(draws: Seq<Draws>)
    requires
        draws.len() <= cells(),
        forall|k: int| 0 <= k < draws.len() ==> (#[trigger] draws[k]).in_unit_interval(),
    ensures
        field_spec(draws).len() <= draws.len(),
        forall|i: int|
            0 <= i < field_spec(draws).len() ==> is_little_sphere(#[trigger] field_spec(draws)[i]),
    decreases draws.len(),
{
    if draws.len() > 0 {
        let k = draws.len() - 1;
        let init = draws.drop_last();
        lemma_field_shape(init);
        lemma_cell_on_grid(k);
        let before = field_spec(init);
        match little_sphere_at(cell_a(k), cell_b(k), draws.last()) {
            Some(s) => {
                assert(draws[k].in_unit_interval());
                assert(is_little_sphere(s));
                assert forall|i: int| 0 <= i < field_spec(draws).len() implies is_little_sphere(
                    #[trigger] field_spec(draws)[i],
                ) by {
                    if i < before.len() {
                        assert(field_spec(draws)[i] == before[i]);
                    }
                }
            },
            None => {},
        }
    }
}

/// A random scene has the ground first and the three centrepieces last;
/// what lies between are small spheres of the grid, at most one for each
/// cell.
pub proof fn lemma_random_scene_shape(spheres: Seq<Sphere>)
    requires
        is_random_scene(spheres),
    ensures
        4 <= spheres.len() <= 4 + cells(),
        spheres[0] == ground_spec(),
        forall|i: int| 1 <= i < spheres.len() - 3 ==> is_little_sphere(#[trigger] spheres[i]),
        spheres[spheres.len() - 3] == centrepiece_spec(0),
        spheres[spheres.len() - 2] == centrepiece_spec(1),
        spheres[spheres.len() - 1] == centrepiece_spec(2),
{
    let draws = choose|draws: Seq<Draws>|
        {
            &&& draws.len() == cells()
            &&& forall|k: int| 0 <= k < draws.len() ==> (#[trigger] draws[k]).in_unit_interval()
            &&& spheres == #[trigger] scene_spec(draws)
        };
    lemma_field_shape(draws);
    let field = field_spec(draws);
    assert forall|i: int| 1 <= i < spheres.len() - 3 implies is_little_sphere(
        #[trigger] spheres[i],
    ) by {
        assert(spheres[i] == field[i - 1]);
    }
}

/// The ground.
pub fn ground() -> (out: Sphere)
    ensures
        out == ground_spec(),
{
    let zero: Scalar = Scalar::from_int(0);
    let half: Scalar = Scalar::ratio(1, 2);
    Sphere {
        center: Vec3::new(zero, Scalar::from_int(-1000), zero),
        radius: Scalar::from_int(1000),
        material: Material::Lambertian { albedo: Vec3::new(half, half, half) },
    }
}

/// The centrepiece of the given number, from zero to two.
pub fn centrepiece(k: u8) -> (out: Sphere)
    ensures
        out == centrepiece_spec(k as int),
{
    let zero: Scalar = Scalar::from_int(0);
    let one: Scalar = Scalar::from_int(1);
    if k == 0 {
        Sphere {
            center: Vec3::new(zero, one, zero),
            radius: one,
            material: Material::Dielectric { refraction_index: Scalar::ratio(3, 2) },
        }
    } else if k == 1 {
        Sphere {
            center: Vec3::new(Scalar::from_int(-4), one, zero),
            radius: one,
            material: Material::Lambertian {
                albedo: Vec3::new(Scalar::ratio(2, 5), Scalar::ratio(1, 5), Scalar::ratio(1, 10)),
            },
        }
    } else {
        Sphere {
            center: Vec3::new(Scalar::from_int(4), one, zero),
            radius: one,
            material: Material::Metal {
                albedo: Vec3::new(Scalar::ratio(7, 10), Scalar::ratio(3, 5), Scalar::ratio(1, 2)),
                fuzz: zero,
            },
        }
    }
}

/// The centre of the small sphere of a grid cell.
pub fn little_center(a: i32, b: i32, u: Scalar, v: Scalar) -> (out: Vec3)
    ensures
        out == little_center_spec(a as int, b as int, u, v),
{
    let spread: Scalar = Scalar::ratio(9, 10);
    Vec3::new(
        Scalar::from_int(a) + spread * u,
        Scalar::ratio(1, 5),
        Scalar::from_int(b) + spread * v,
    )
}

/// Whether a small sphere at `center` keeps clear of the metal centrepiece.
pub fn clear_of_centrepiece(center: &Vec3) -> (out: bool)
    ensures
        out == is_clear(*center),
{
    let post: Vec3 = Vec3::new(Scalar::from_int(4), Scalar::ratio(1, 5), Scalar::from_int(0));
    (*center - post).norm() > Scalar::ratio(9, 10)
}

/// The material of a small sphere for the given draws.
pub fn little_material(
    choice: Scalar,
    d1: Scalar,
    d2: Scalar,
    d3: Scalar,
    d4: Scalar,
    d5: Scalar,
    d6: Scalar,
) -> (out: Material)
    ensures
        out == little_material_spec(choice, d1, d2, d3, d4, d5, d6),
{
    let half: Scalar = Scalar::ratio(1, 2);
    let one: Scalar = Scalar::from_int(1);
    if choice < Scalar::ratio(4, 5) {
        Material::Lambertian { albedo: Vec3::new(d1 * d2, d3 * d4, d5 * d6) }
    } else if choice < Scalar::ratio(19, 20) {
        Material::Metal {
            albedo: Vec3::new(half * (one + d1), half * (one + d2), half * (one + d3)),
            fuzz: half * d4,
        }
    } else {
        Material::Dielectric { refraction_index: Scalar::ratio(3, 2) }
    }
}

/// How many draws the colour and the fuzz of a metal take, where the
/// material is not glass; none where it is.
pub open spec fn metal_draws(choice: Scalar) -> nat {
    if choice@ < Scalar::of_ratio(19, 20)@ {
        4
    } else {
        0
    }
}

/// How many more draws the colour of a diffuse material takes; none where
/// the material is not diffuse.
pub open spec fn diffuse_draws(choice: Scalar) -> nat {
    if choice@ < Scalar::of_ratio(4, 5)@ {
        2
    } else {
        0
    }
}

/// Whether the small sphere of the cell `(a, b)` stays, for the two draws
/// that place it: it is left out where it would stand too near to the
/// metal centrepiece.
pub open spec fn little_stays(a: int, b: int, stream: Stream) -> bool {
    is_clear(little_center_spec(a, b, stream(0), stream(1)))
}

/// How many draws [`draw_little`] takes for the cell `(a, b)`: two for
/// the place, and for a sphere that stays one for the choice of material
/// and then as many as the material takes.
#[verifier::opaque]
pub open spec fn little_draws_taken(a: int, b: int, stream: Stream) -> nat {
    if little_stays(a, b, stream) {
        3 + metal_draws(stream(2)) + diffuse_draws(stream(2))
    } else {
        2
    }
}

/// The draws that [`draw_little`] takes for the cell `(a, b)`, in the
/// order in which the sampler gives them: the two for the place, and for
/// a sphere that stays the choice of material and then the draws of the
/// material. A draw that is not taken is zero.
#[verifier::opaque]
pub open spec fn little_draws_spec(a: int, b: int, stream: Stream) -> Draws {
    let zero = Scalar::of_int(0);
    let stays = little_stays(a, b, stream);
    let choice = if stays {
        stream(2)
    } else {
        zero
    };
    let metal = stays && metal_draws(choice) > 0;
    let diffuse = stays && diffuse_draws(choice) > 0;
    Draws {
        u: stream(0),
        v: stream(1),
        choice,
        d1: if metal {
            stream(3)
        } else {
            zero
        },
        d2: if metal {
            stream(4)
        } else {
            zero
        },
        d3: if metal {
            stream(5)
        } else {
            zero
        },
        d4: if metal {
            stream(6)
        } else {
            zero
        },
        d5: if diffuse {
            stream(3 + metal_draws(choice))
        } else {
            zero
        },
        d6: if diffuse {
            stream(4 + metal_draws(choice))
        } else {
            zero
        },
    }
}

/// Draws what makes the small sphere of the cell `(a, b)`: the place,
/// and, unless the sphere is left out for its place, the choice of
/// material and as many further draws as that material takes.
fn draw_little(a: i32, b: i32, rng: &mut Sampler) -> (draws: Draws)
    ensures
        draws == little_draws_spec(a as int, b as int, old(rng).stream()),
        final(rng).stream() == rest(
            old(rng).stream(),
            little_draws_taken(a as int, b as int, old(rng).stream()),
        ),
        draws.in_unit_interval(),
{
    reveal(little_draws_spec);
    reveal(little_draws_taken);
    let zero: Scalar = Scalar::from_int(0);
    let ghost start = rng.stream();
    let u: Scalar = rng.uniform();
    let v: Scalar = rng.uniform();
    proof {
        lemma_rest_of_rest(start, 1, 1);
    }
    let mut draws: Draws = Draws {
        u,
        v,
        choice: zero,
        d1: zero,
        d2: zero,
        d3: zero,
        d4: zero,
        d5: zero,
        d6: zero,
    };
    let center: Vec3 = little_center(a, b, u, v);
    if !clear_of_centrepiece(&center) {
        return draws;
    }
    let choice: Scalar = rng.uniform();
    draws.choice = choice;
    proof {
        lemma_rest_of_rest(start, 2, 1);
    }
    if choice < Scalar::ratio(19, 20) {
        draws.d1 = rng.uniform();
        draws.d2 = rng.uniform();
        draws.d3 = rng.uniform();
        draws.d4 = rng.uniform();
        proof {
            lemma_rest_of_rest(start, 3, 1);
            lemma_rest_of_rest(start, 4, 1);
            lemma_rest_of_rest(start, 5, 1);
            lemma_rest_of_rest(start, 6, 1);
        }
    }
    let ghost taken = 3 + metal_draws(choice);
    assert(rng.stream() == rest(start, taken));
    if choice < Scalar::ratio(4, 5) {
        draws.d5 = rng.uniform();
        draws.d6 = rng.uniform();
        proof {
            lemma_rest_of_rest(start, taken, 1);
            lemma_rest_of_rest(start, taken + 1, 1);
        }
    }
    draws
}

/// The small sphere of the grid cell `(a, b)` for the given draws, unless
/// it would stand too near to the metal centrepiece.
pub fn little_sphere(a: i32, b: i32, draws: &Draws) -> (out: Option<Sphere>)
    ensures
        out == little_sphere_at(a as int, b as int, *draws),
{
    let center: Vec3 = little_center(a, b, draws.u, draws.v);
    if !clear_of_centrepiece(&center) {
        return None;
    }
    let material: Material = little_material(
        draws.choice,
        draws.d1,
        draws.d2,
        draws.d3,
        draws.d4,
        draws.d5,
        draws.d6,
    );
    Some(Sphere { center, radius: Scalar::ratio(1, 5), material })
}

/// The draws for the cells of the grid from the cell of number `from`
/// on, those of each cell taken from what the cell before has left.
pub open spec fn scene_draws_from(from: nat, stream: Stream) -> Seq<Draws>
    decreases cells() - from,
{
    if from >= cells() {
        Seq::empty()
    } else {
        let a = cell_a(from as int);
        let b = cell_b(from as int);
        seq![little_draws_spec(a, b, stream)] + scene_draws_from(
            from + 1,
            rest(stream, little_draws_taken(a, b, stream)),
        )
    }
}

/// How many draws the cells of the grid take from the cell of number
/// `from` on.
pub open spec fn scene_draws_taken(from: nat, stream: Stream) -> nat
    decreases cells() - from,
{
    if from >= cells() {
        0
    } else {
        let a = cell_a(from as int);
        let b = cell_b(from as int);
        little_draws_taken(a, b, stream) + scene_draws_taken(
            from + 1,
            rest(stream, little_draws_taken(a, b, stream)),
        )
    }
}

/// Specification of [`random_scene`]: the scene for the draws of the
/// stream, cell by cell.
pub open spec fn random_scene_spec(stream: Stream) -> Seq<Sphere> {
    scene_spec(scene_draws_from(0, stream))
}

/// A scene of the ground, a field of small random spheres and the three
/// centrepieces. The draws are taken cell by cell, so that one seed gives
/// one scene.
pub fn random_scene(rng: &mut Sampler) -> (world: HitableList)
    ensures
        world.spheres@ == random_scene_spec(old(rng).stream()),
        final(rng).stream() == rest(old(rng).stream(), scene_draws_taken(0, old(rng).stream())),
        is_random_scene(world.spheres@),
{
    let mut spheres: Vec<Sphere> = Vec::new();
    spheres.push(ground());
    let ghost start = rng.stream();
    let ghost mut drawn: Seq<Draws> = Seq::empty();
    let ghost mut taken: nat = 0;
    proof {
        lemma_rest_of_rest(start, 0, 0);
        assert(spheres@ == seq![ground_spec()] + field_spec(drawn));
        assert(drawn + scene_draws_from(0, start) =~= scene_draws_from(0, start));
    }
    let mut a: i32 = -GRID;
    while a < GRID
        invariant
            -GRID <= a <= GRID,
            start == old(rng).stream(),
            drawn.len() == (a + GRID) * (2 * GRID),
            forall|k: int| 0 <= k < drawn.len() ==> (#[trigger] drawn[k]).in_unit_interval(),
            spheres@ == seq![ground_spec()] + field_spec(drawn),
            rng.stream() == rest(start, taken),
            scene_draws_from(0, start) == drawn + scene_draws_from(drawn.len(), rng.stream()),
            scene_draws_taken(0, start) == taken + scene_draws_taken(drawn.len(), rng.stream()),
        decreases GRID - a,
    {
        let mut b: i32 = -GRID;
        while b < GRID
            invariant
                -GRID <= a < GRID,
                -GRID <= b <= GRID,
                start == old(rng).stream(),
                drawn.len() == (a + GRID) * (2 * GRID) + (b + GRID),
                forall|k: int| 0 <= k < drawn.len() ==> (#[trigger] drawn[k]).in_unit_interval(),
                spheres@ == seq![ground_spec()] + field_spec(drawn),
                rng.stream() == rest(start, taken),
                scene_draws_from(0, start) == drawn + scene_draws_from(
                    drawn.len(),
                    rng.stream(),
                ),
                scene_draws_taken(0, start) == taken + scene_draws_taken(
                    drawn.len(),
                    rng.stream(),
                ),
            decreases GRID - b,
        {
            let ghost here = rng.stream();
            let ghost number = drawn.len();
            assert(number < cells()) by (nonlinear_arith)
                requires
                    number == (a + GRID) * (2 * GRID) + (b + GRID),
                    -GRID <= a < GRID,
                    -GRID <= b < GRID,
                    cells() == 4 * GRID * GRID,
                    GRID == 11,
            ;
            proof {
                lemma_cell_number(a as int, b as int);
            }
            let draws: Draws = draw_little(a, b, rng);
            let placed: Option<Sphere> = little_sphere(a, b, &draws);
            proof {
                let one = little_draws_taken(a as int, b as int, here);
                lemma_rest_of_rest(start, taken, one);
                let ghost before = drawn;
                let ghost later = scene_draws_from(number + 1, rng.stream());
                drawn = drawn.push(draws);
                taken = taken + one;
                assert(drawn.drop_last() == before);
                assert(drawn.last() == draws);
                assert(before + (seq![draws] + later) =~= drawn + later);
                assert(placed == little_sphere_at(
                    cell_a(drawn.len() - 1),
                    cell_b(drawn.len() - 1),
                    drawn.last(),
                ));
                match placed {
                    Some(sphere) => {
                        assert(spheres@.push(sphere) == seq![ground_spec()] + field_spec(drawn));
                    },
                    None => {},
                }
            }
            if let Some(sphere) = placed {
                spheres.push(sphere);
            }
            b = b + 1;
        }
        assert((a + 1 + GRID) * (2 * GRID) == (a + GRID) * (2 * GRID) + 2 * GRID)
            by (nonlinear_arith);
        a = a + 1;
    }
    spheres.push(centrepiece(0));
    spheres.push(centrepiece(1));
    spheres.push(centrepiece(2));
    proof {
        assert(drawn.len() == cells());
        assert(drawn + Seq::<Draws>::empty() =~= drawn);
        assert(spheres@ == scene_spec(drawn));
    }
    HitableList { spheres }
}

} // verus!
