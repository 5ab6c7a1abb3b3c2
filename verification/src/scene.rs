//! The random scene: a ground, a field of small spheres of random
//! materials, and three large spheres.
use crate::fixed::lemma_times_fraction;
use crate::fixed::Fixed;
use crate::fixed::ONE_RAW;
use crate::hittable::HittableList;
use crate::material::Dialectric;
use crate::material::Lambertian;
use crate::material::Material;
use crate::material::Metal;
use crate::material::Surface;
use crate::random::is_fraction;
use crate::random::lemma_fraction_of_span;
use crate::random::random_fraction;
use crate::random::range_from_fraction;
use crate::random::range_point;
use crate::sphere::Sphere;
use crate::utils::HALF_RAW;
use crate::vec3::Color;
use crate::vec3::Point3;
use crate::vec3::Vec3;
use std::sync::Arc;
use vstd::prelude::*;

verus! {

/// Raw value of the radius of a small sphere of the random scene and of
/// the height of its centre: `0.2`, rounded down.
pub const SMALL_RADIUS_RAW: i64 = 858993459;

/// Raw value of the room that a small sphere has in its cell, and of the
/// distance that it keeps from the point `(4, 0.2, 0)`: `0.9`, rounded down.
pub const CELL_ROOM_RAW: i64 = 3865470566;

/// Raw value of the share of small spheres that are diffuse: `0.8`, rounded
/// down.
pub const DIFFUSE_SHARE_RAW: i64 = 3435973836;

/// Raw value of the share of small spheres that are diffuse or metal:
/// `0.95`, rounded down.
pub const OPAQUE_SHARE_RAW: i64 = 4080218931;

/// Raw value of the refractive index of glass: `1.5`.
pub const GLASS_INDEX_RAW: i64 = 6442450944;

/// The centre of the small sphere in the cell `(a, b)` of the random scene,
/// for the draws `rand_1` and `rand_2`: `(a + 0.9 rand_1, 0.2, b + 0.9 rand_2)`.
pub open spec fn small_center_spec(a: int, b: int, rand_1: Fixed, rand_2: Fixed) -> Point3 {
    Vec3 {
        x: Fixed::whole(a).plus(Fixed::of(CELL_ROOM_RAW as int).times(rand_1)),
        y: Fixed::of(SMALL_RADIUS_RAW as int),
        z: Fixed::whole(b).plus(Fixed::of(CELL_ROOM_RAW as int).times(rand_2)),
    }
}

/// Whether a small sphere about `center` keeps clear of the large sphere
/// about `(4, 1, 0)`: its centre lies further than `0.9` from `(4, 0.2, 0)`.
pub open spec fn keeps_clear_spec(center: Point3) -> bool {
    center.minus(
        Vec3 { x: Fixed::whole(4), y: Fixed::of(SMALL_RADIUS_RAW as int), z: Fixed::whole(0) },
    ).length_spec()@ > CELL_ROOM_RAW
}

/// The material of a small sphere for the draw `choose_mat`: diffuse under
/// `0.8`, with the product of `first` and `second` as its colour; metal
/// under `0.95`, with a colour between `0.5` and `1` given by `first` and a
/// fuzz between `0` and `0.5` given by `rough`; and glass above.
pub open spec fn small_material_spec(choose_mat: Fixed, first: Vec3, second: Vec3, rough: Fixed)
    -> Surface {
    if choose_mat@ < DIFFUSE_SHARE_RAW {
        Surface::Lambertian(Lambertian { albedo: first.times(second) })
    } else if choose_mat@ < OPAQUE_SHARE_RAW {
        Surface::Metal(
            Metal {
                albedo: Vec3::range_points(Fixed::of(HALF_RAW as int), Fixed::whole(1), first),
                fuzz: range_point(Fixed::whole(0), Fixed::of(HALF_RAW as int), rough),
            },
        )
    } else {
        Surface::Dialectric(Dialectric { ir: Fixed::of(GLASS_INDEX_RAW as int) })
    }
}

/// The centre of a small sphere lies in its cell, at height `0.2`: from
/// the cell's corner `(a, b)` it is less than `0.9` away along either axis.
pub proof fn lemma_small_center_in_cell(a: int, b: int, rand_1: Fixed, rand_2: Fixed)
    requires
        -11 <= a < 11,
        -11 <= b < 11,
        is_fraction(rand_1),
        is_fraction(rand_2),
    ensures
        ({
            let center = small_center_spec(a, b, rand_1, rand_2);
            &&& a * ONE_RAW <= center.x@ < a * ONE_RAW + CELL_ROOM_RAW
            &&& center.y@ == SMALL_RADIUS_RAW
            &&& b * ONE_RAW <= center.z@ < b * ONE_RAW + CELL_ROOM_RAW
        }),
{
    lemma_fraction_of_span(CELL_ROOM_RAW as int, rand_1@);
    lemma_fraction_of_span(CELL_ROOM_RAW as int, rand_2@);
}

/// The centre of the small sphere in the cell `(a, b)` of the random scene.
pub fn small_center(a: i32, b: i32, rand_1: Fixed, rand_2: Fixed) -> (center: Point3)
    ensures
        center == small_center_spec(a as int, b as int, rand_1, rand_2),
{
    Point3::new(
        Fixed::from_int(a).add(Fixed { raw: CELL_ROOM_RAW }.mul(rand_1)),
        Fixed { raw: SMALL_RADIUS_RAW },
        Fixed::from_int(b).add(Fixed { raw: CELL_ROOM_RAW }.mul(rand_2)),
    )
}

/// Whether a small sphere about `center` keeps clear of the large sphere
/// about `(4, 1, 0)`.
pub fn keeps_clear(center: &Point3) -> (clear: bool)
    ensures
        clear == keeps_clear_spec(*center),
{
    center.sub(
        Point3::new(Fixed::from_int(4), Fixed { raw: SMALL_RADIUS_RAW }, Fixed::zero()),
    ).length().raw > CELL_ROOM_RAW
}

/// The material of a small sphere for the draw `choose_mat` and the draws
/// `first`, `second` and `rough`, of which the kind of material decides
/// which are used.
pub fn small_material_with(choose_mat: Fixed, first: &Vec3, second: &Vec3, rough: Fixed) -> (m:
    Surface)
    ensures
        m == small_material_spec(choose_mat, *first, *second, rough),
        first.all_fractions() && second.all_fractions() && is_fraction(rough)
            ==> m.conserves_energy() && smooth_enough(m),
{
    if choose_mat.raw < DIFFUSE_SHARE_RAW {
        proof {
            if first.all_fractions() && second.all_fractions() {
                lemma_times_fraction(first.x, second.x);
                lemma_times_fraction(first.y, second.y);
                lemma_times_fraction(first.z, second.z);
            }
        }
        Surface::Lambertian(Lambertian { albedo: first.mul(*second) })
    } else if choose_mat.raw < OPAQUE_SHARE_RAW {
        let albedo = Vec3::range_from_fractions(Fixed { raw: HALF_RAW }, Fixed::one(), first);
        let fuzz = range_from_fraction(Fixed::zero(), Fixed { raw: HALF_RAW }, rough);
        Surface::Metal(Metal { albedo, fuzz })
    } else {
        Surface::Dialectric(Dialectric { ir: Fixed { raw: GLASS_INDEX_RAW } })
    }
}

/// A metal's fuzz lies in `[0, 0.5)`, as that of every metal of the random
/// scene does; of another material nothing is asked.
pub open spec fn smooth_enough(m: Surface) -> bool {
    m matches Surface::Metal(metal) ==> 0 <= metal.fuzz@ < HALF_RAW
}

/// The sphere is fit to be rendered: its radius is positive, its material
/// gives no colour back stronger than it came in, and a metal's fuzz lies
/// in `[0, 0.5)`.
pub open spec fn is_sound(sphere: Sphere) -> bool {
    sphere.radius@ > 0 && sphere.m.conserves_energy() && smooth_enough(*sphere.m)
}

/// The random draws that the small sphere of one cell uses.  The first
/// three are used for every cell; of the others the kind of material
/// decides which are used.
#[derive(Clone, Copy, Debug, PartialEq, Eq, Structural)]
pub struct CellDraws {
    pub choose_mat: Fixed,
    pub rand_1: Fixed,
    pub rand_2: Fixed,
    pub first: Vec3,
    pub second: Vec3,
    pub rough: Fixed,
}

impl CellDraws {
    /// Every draw lies in `[0, 1)`.
    pub open spec fn wf(self) -> bool {
        is_fraction(self.choose_mat) && is_fraction(self.rand_1) && is_fraction(self.rand_2)
            && self.first.all_fractions() && self.second.all_fractions() && is_fraction(
            self.rough,
        )
    }

    /// Draws for one cell, each uniform in `[0, 1)`.
    pub fn random() -> (draws: CellDraws)
        ensures
            draws.wf(),
    {
        let choose_mat: Fixed = random_fraction();
        let rand_1: Fixed = random_fraction();
        let rand_2: Fixed = random_fraction();
        let first = Vec3::random();
        let second = Vec3::random();
        let rough = random_fraction();
        CellDraws { choose_mat, rand_1, rand_2, first, second, rough }
    }
}

/// `sphere` is the small sphere of the cell `(a, b)` for the draws `draws`.
pub open spec fn is_cell_sphere(sphere: Sphere, a: int, b: int, draws: CellDraws) -> bool {
    sphere.center == small_center_spec(a, b, draws.rand_1, draws.rand_2) && keeps_clear_spec(
        sphere.center,
    ) && sphere.radius == Fixed::of(SMALL_RADIUS_RAW as int) && *sphere.m == small_material_spec(
        draws.choose_mat,
        draws.first,
        draws.second,
        draws.rough,
    )
}

/// The small sphere of the cell `(a, b)` for the draws `draws`, unless it
/// would touch the large sphere about `(4, 1, 0)`.
pub fn cell_sphere(a: i32, b: i32, draws: &CellDraws) -> (res: Option<Sphere>)
    ensures
        res is Some <==> keeps_clear_spec(
            small_center_spec(a as int, b as int, draws.rand_1, draws.rand_2),
        ),
        res matches Some(sphere) ==> is_cell_sphere(sphere, a as int, b as int, *draws) && (
        draws.wf() ==> is_sound(sphere)),
{
    let center = small_center(a, b, draws.rand_1, draws.rand_2);
    if keeps_clear(&center) {
        let material = small_material_with(
            draws.choose_mat,
            &draws.first,
            &draws.second,
            draws.rough,
        );
        Some(Sphere { center, radius: Fixed { raw: SMALL_RADIUS_RAW }, m: Arc::new(material) })
    } else {
        None
    }
}

/// The sphere of radius `radius` about `(x, y, 0)` with material `m`.
fn sphere_at(x: i32, y: i32, radius: Fixed, m: Surface) -> (sphere: Sphere)
    ensures
        sphere.center == (Vec3 {
            x: Fixed::whole(x as int),
            y: Fixed::whole(y as int),
            z: Fixed::whole(0),
        }),
        sphere.radius == radius,
        *sphere.m == m,
{
    Sphere {
        center: Point3::new(Fixed::from_int(x), Fixed::from_int(y), Fixed::zero()),
        radius,
        m: Arc::new(m),
    }
}

/// The ground of the random scene: a grey diffuse sphere of radius 1000
/// that touches the origin from below.
pub open spec fn is_ground(sphere: Sphere) -> bool {
    sphere.center == (Vec3 { x: Fixed::whole(0), y: Fixed::whole(-1000), z: Fixed::whole(0) })
        && sphere.radius == Fixed::whole(1000) && *sphere.m == Surface::Lambertian(
        Lambertian {
            albedo: Vec3 {
                x: Fixed::of(HALF_RAW as int),
                y: Fixed::of(HALF_RAW as int),
                z: Fixed::of(HALF_RAW as int),
            },
        },
    )
}

/// A small sphere of the random scene: the sphere of one of the 22 by 22
/// cells about the origin, for some draws.
pub open spec fn is_small(sphere: Sphere) -> bool {
    exists|a: int, b: int, draws: CellDraws|
        -11 <= a < 11 && -11 <= b < 11 && draws.wf() && #[trigger] is_cell_sphere(
            sphere,
            a,
            b,
            draws,
        )
}

/// The row of the cell with number `k`, the cells counted row by row.
pub open spec fn cell_row(k: int) -> int {
    k / 22 - 11
}

/// The column of the cell with number `k`, the cells counted row by row.
pub open spec fn cell_column(k: int) -> int {
    k % 22 - 11
}

/// `spheres` are, in the order of the cells, the small spheres of those of
/// the first cells whose centre keeps clear of the large sphere, the cell
/// with number `k` placed by the draws `draws[k]`: a cell whose centre keeps
/// clear gives one sphere, and another cell none.
pub open spec fn are_cell_spheres(spheres: Seq<Sphere>, draws: Seq<CellDraws>) -> bool
    decreases draws.len(),
{
    if draws.len() == 0 {
        spheres.len() == 0
    } else {
        let k = draws.len() - 1;
        let last = draws.last();
        if keeps_clear_spec(
            small_center_spec(cell_row(k), cell_column(k), last.rand_1, last.rand_2),
        ) {
            spheres.len() > 0 && is_cell_sphere(
                spheres.last(),
                cell_row(k),
                cell_column(k),
                last,
            ) && are_cell_spheres(spheres.drop_last(), draws.drop_last())
        } else {
            are_cell_spheres(spheres, draws.drop_last())
        }
    }
}

/// Every one of `draws` lies in `[0, 1)`.
pub open spec fn all_cells_drawable(draws: Seq<CellDraws>) -> bool {
    forall|k: int| 0 <= k < draws.len() ==> (#[trigger] draws[k]).wf()
}

/// So many tenths, rounded down.
pub open spec fn tenths(n: int) -> Fixed {
    Fixed::whole(n).over(Fixed::whole(10))
}

/// One of the three large spheres of the random scene: radius one, centre
/// at `(x, 1, 0)`.
pub open spec fn is_large(sphere: Sphere, x: int) -> bool {
    sphere.center == (Vec3 { x: Fixed::whole(x), y: Fixed::whole(1), z: Fixed::whole(0) })
        && sphere.radius == Fixed::whole(1)
}

/// Adds the random scene to `world`: the ground; then, for each cell
/// `(a, b)` of the 22 by 22 cells about the origin, row by row, a small
/// sphere at a random place in the cell, of a random material, unless it
/// would touch the large sphere about `(4, 1, 0)`; then three large spheres,
/// of glass about `(0, 1, 0)`, diffuse about `(-4, 1, 0)` and of metal about
/// `(4, 1, 0)`.  Every sphere added is fit to be rendered.
pub fn random_scene(world: &mut HittableList)
    ensures
        exists|draws: Seq<CellDraws>|
            draws.len() == 484 && all_cells_drawable(draws) && #[trigger] are_cell_spheres(
                final(world).objects@.subrange(
                    old(world).objects@.len() as int + 1,
                    final(world).objects@.len() - 3,
                ),
                draws,
            ),
        forall|i: int|
            old(world).objects@.len() <= i < final(world).objects@.len() ==> is_sound(
                #[trigger] final(world).objects@[i],
            ),
        old(world).objects@.len() + 4 <= final(world).objects@.len() <= old(world).objects@.len()
            + 488,
        final(world).objects@.subrange(0, old(world).objects@.len() as int) == old(
            world,
        ).objects@,
        is_ground(final(world).objects@[old(world).objects@.len() as int]),
        forall|i: int|
            old(world).objects@.len() < i < final(world).objects@.len() - 3 ==> is_small(
                #[trigger] final(world).objects@[i],
            ),
        is_large(final(world).objects@[final(world).objects@.len() - 3], 0),
        *final(world).objects@[final(world).objects@.len() - 3].m == Surface::Dialectric(
            Dialectric { ir: Fixed::of(GLASS_INDEX_RAW as int) },
        ),
        is_large(final(world).objects@[final(world).objects@.len() - 2], -4),
        *final(world).objects@[final(world).objects@.len() - 2].m == Surface::Lambertian(
            Lambertian { albedo: Vec3 { x: tenths(4), y: tenths(2), z: tenths(1) } },
        ),
        is_large(final(world).objects@[final(world).objects@.len() - 1], 4),
        *final(world).objects@[final(world).objects@.len() - 1].m == Surface::Metal(
            Metal {
                albedo: Vec3 { x: tenths(7), y: tenths(6), z: tenths(5) },
                fuzz: Fixed::whole(0),
            },
        ),
        old(world).conserves_energy() ==> final(world).conserves_energy(),
{
    let ghost before = world.objects@;
    let half = Fixed { raw: HALF_RAW };
    let ground_material = Lambertian { albedo: Color::new(half, half, half) };
    let ground_sphere = sphere_at(
        0,
        -1000,
        Fixed::from_int(1000),
        Surface::Lambertian(ground_material),
    );
    world.objects.push(ground_sphere);
    let ghost mut cells: Seq<CellDraws> = Seq::empty();
    proof {
        assert(world.objects@.subrange(before.len() as int + 1, world.objects@.len() as int)
            =~= Seq::<Sphere>::empty());
    }

    let mut a: i32 = -11;
    while a < 11
        invariant
            -11 <= a <= 11,
            before.len() + 1 <= world.objects@.len() <= before.len() + 1 + (a + 11) * 22,
            world.objects@.subrange(0, before.len() as int) == before,
            is_ground(world.objects@[before.len() as int]),
            forall|i: int|
                before.len() < i < world.objects@.len() ==> is_small(#[trigger] world.objects@[i]),
            forall|i: int|
                before.len() <= i < world.objects@.len() ==> is_sound(
                    #[trigger] world.objects@[i],
                ),
            cells.len() == (a + 11) * 22,
            all_cells_drawable(cells),
            are_cell_spheres(
                world.objects@.subrange(before.len() as int + 1, world.objects@.len() as int),
                cells,
            ),
        decreases 11 - a,
    {
        let mut b: i32 = -11;
        while b < 11
            invariant
                -11 <= a < 11,
                -11 <= b <= 11,
                before.len() + 1 <= world.objects@.len() <= before.len() + 1 + (a + 11) * 22 + (b
                    + 11),
                world.objects@.subrange(0, before.len() as int) == before,
                is_ground(world.objects@[before.len() as int]),
                forall|i: int|
                    before.len() < i < world.objects@.len() ==> is_small(
                        #[trigger] world.objects@[i],
                    ),
                forall|i: int|
                    before.len() <= i < world.objects@.len() ==> is_sound(
                        #[trigger] world.objects@[i],
                    ),
                cells.len() == (a + 11) * 22 + (b + 11),
                all_cells_drawable(cells),
                are_cell_spheres(
                    world.objects@.subrange(before.len() as int + 1, world.objects@.len() as int),
                    cells,
                ),
            decreases 11 - b,
        {
            let draws = CellDraws::random();
            let ghost earlier = world.objects@;
            let ghost placed = earlier.subrange(before.len() as int + 1, earlier.len() as int);
            proof {
                let k = cells.len() as int;
                assert(cell_row(k) == a && cell_column(k) == b);
                assert(cells.push(draws).drop_last() =~= cells);
            }
            if let Some(sphere) = cell_sphere(a, b, &draws) {
                assert(is_small(sphere)) by {
                    assert(is_cell_sphere(sphere, a as int, b as int, draws));
                }
                world.objects.push(sphere);
                proof {
                    assert(world.objects@.subrange(0, before.len() as int) == earlier.subrange(
                        0,
                        before.len() as int,
                    ));
                    let longer = world.objects@.subrange(
                        before.len() as int + 1,
                        world.objects@.len() as int,
                    );
                    assert(longer =~= placed.push(sphere));
                    assert(longer.drop_last() =~= placed);
                }
            }
            proof {
                cells = cells.push(draws);
            }
            b += 1;
        }
        a += 1;
    }

    let ghost small = world.objects@;
    let material_1 = Dialectric { ir: Fixed { raw: GLASS_INDEX_RAW } };
    world.objects.push(sphere_at(0, 1, Fixed::from_int(1), Surface::Dialectric(material_1)));

    let material_2 = Lambertian {
        albedo: Color::new(
            Fixed::from_ratio(4, 10),
            Fixed::from_ratio(2, 10),
            Fixed::from_ratio(1, 10),
        ),
    };
    proof {
        lemma_tenths(4);
        lemma_tenths(2);
        lemma_tenths(1);
        lemma_tenths(7);
        lemma_tenths(6);
        lemma_tenths(5);
    }
    world.objects.push(sphere_at(-4, 1, Fixed::from_int(1), Surface::Lambertian(material_2)));

    let material_3 = Metal {
        albedo: Color::new(
            Fixed::from_ratio(7, 10),
            Fixed::from_ratio(6, 10),
            Fixed::from_ratio(5, 10),
        ),
        fuzz: Fixed::zero(),
    };
    world.objects.push(sphere_at(4, 1, Fixed::from_int(1), Surface::Metal(material_3)));
    proof {
        assert(world.objects@.subrange(0, before.len() as int) == small.subrange(
            0,
            before.len() as int,
        ));
        assert(world.objects@.subrange(before.len() as int + 1, world.objects@.len() - 3)
            =~= small.subrange(before.len() as int + 1, small.len() as int));
        assert forall|i: int| 0 <= i < world.objects@.len() && old(
            world,
        ).conserves_energy() implies (#[trigger] world.objects@[i]).m.conserves_energy() by {
            if i < before.len() {
                assert(world.objects@[i] == before[i]);
            }
        }
    }
}

/// So many tenths lie between zero and one.
proof fn lemma_tenths(n: int)
    requires
        0 <= n <= 10,
    ensures
        0 <= tenths(n)@ <= ONE_RAW,
{
    let exact = n * ONE_RAW * ONE_RAW;
    let divisor = 10 * ONE_RAW;
    assert(0 <= exact <= ONE_RAW * divisor) by (nonlinear_arith)
        requires
            exact == n * ONE_RAW * ONE_RAW,
            divisor == 10 * ONE_RAW,
            0 <= n <= 10,
            ONE_RAW > 0,
    ;
    vstd::arithmetic::div_mod::lemma_div_is_ordered(0, exact, divisor);
    vstd::arithmetic::div_mod::lemma_div_is_ordered(exact, ONE_RAW * divisor, divisor);
    vstd::arithmetic::div_mod::lemma_div_multiples_vanish(ONE_RAW as int, divisor);
    assert(Fixed::whole(n)@ * ONE_RAW == exact) by (nonlinear_arith)
        requires
            Fixed::whole(n)@ == n * ONE_RAW,
            exact == n * ONE_RAW * ONE_RAW,
    ;
}

} // verus!
