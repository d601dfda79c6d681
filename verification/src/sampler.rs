//! The source of randomness: a seedable generator handed explicitly to
//! every function that draws from it, and the two rejection samplers built
//! on it.

use vstd::prelude::*;
use rand::rngs::StdRng;
use crate::scalar::{Scalar, ONE_RAW};
use crate::vec3::Vec3;

verus! {

/// The generator `StdRng` of `rand`. It is opaque here: what is known of a
/// generator is the words that it will give, [`word_after`].
#[verifier::external_type_specification]
#[verifier::external_body]
pub struct ExStdRng(rand::rngs::StdRng);

/// The word that `RngCore::next_u32` gives on the generator `rng` once
/// `skipped` words have been taken from it before. A generator computes its
/// words from its state alone, so this is a function of the generator.
pub uninterp spec fn word_after(rng: StdRng, skipped: nat) -> u32;

/// The word of the given index in the stream of the generator that
/// `SeedableRng::seed_from_u64` makes from `seed`. The generator is made
/// from the seed alone, by the algorithm of the version of `rand` that is
/// linked; another version may give another stream.
pub uninterp spec fn seeded_word(seed: u64, index: nat) -> u32;

/// Calls `SeedableRng::seed_from_u64` of `rand` for `StdRng`. The claim is
/// that the generator depends on the seed alone: its words are those that
/// [`seeded_word`] names for the seed. What the words are is not claimed.
#[verifier::external_body]
fn generator_from_seed(seed: u64) -> (rng: StdRng)
    ensures
        forall|i: nat| #[trigger] word_after(rng, i) == seeded_word(seed, i),
{
    rand::SeedableRng::seed_from_u64(seed)
}

/// Calls `RngCore::next_u32` of `rand` on a `StdRng`. The claim is that the
/// word is the one that the generator was to give first, and that the
/// generator goes on with the words that were to follow. What the word is
/// is not claimed.
#[verifier::external_body]
fn next_word(rng: &mut StdRng) -> (word: u32)
    ensures
        word == word_after(*old(rng), 0),
        forall|i: nat| #[trigger] word_after(*final(rng), i) == word_after(*old(rng), i + 1),
{
    rand::RngCore::next_u32(rng)
}

/// The bound on the candidates that a rejection sampler draws, which a
/// loop must have to be known to end. It is the largest count that a
/// machine word holds, so that no run reaches it: at a thousand million
/// candidates a second that would take more than five hundred years.
pub const MAX_TRIES: u64 = u64::MAX;

/// A stream of random draws. Two samplers made from one seed give the same
/// stream, as long as they are built with one version of `rand`.
pub struct Sampler {
    rng: StdRng,
}

/// Whether `u` lies in the half-open unit interval `[0, 1)`.
pub open spec fn is_unit_draw(u: Scalar) -> bool {
    0 <= u@ < ONE_RAW
}

/// The point of the cube `[-1, 1)^3` that three unit draws stand for:
/// `2 * (a, b, c) - (1, 1, 1)`.
pub open spec fn cube_point_spec(a: Scalar, b: Scalar, c: Scalar) -> Vec3 {
    (Vec3 { x: a, y: b, z: c }).scaled(Scalar::of_int(2)).minus(
        Vec3 { x: Scalar::of_int(1), y: Scalar::of_int(1), z: Scalar::of_int(1) },
    )
}

/// The point of the square `[-1, 1)^2` in the plane `z = 0` that two unit
/// draws stand for: `2 * (a, b, 0) - (1, 1, 0)`.
pub open spec fn square_point_spec(a: Scalar, b: Scalar) -> Vec3 {
    (Vec3 { x: a, y: b, z: Scalar::of_int(0) }).scaled(Scalar::of_int(2)).minus(
        Vec3 { x: Scalar::of_int(1), y: Scalar::of_int(1), z: Scalar::of_int(0) },
    )
}

/// Whether `p` can come out of [`random_in_unit_sphere`]: a cube point of
/// three unit draws whose squared norm is less than one.
pub open spec fn in_unit_ball(p: Vec3) -> bool {
    exists|a: Scalar, b: Scalar, c: Scalar|
        is_unit_draw(a) && is_unit_draw(b) && is_unit_draw(c)
            && p == #[trigger] cube_point_spec(a, b, c)
            && p.squared_norm_spec()@ < ONE_RAW
}

/// Whether `p` can come out of [`random_in_unit_disk`]: a square point of
/// two unit draws whose squared norm is less than one.
pub open spec fn in_unit_disk(p: Vec3) -> bool {
    exists|a: Scalar, b: Scalar|
        is_unit_draw(a) && is_unit_draw(b) && p == #[trigger] square_point_spec(a, b)
            && p.dot_spec(&p)@ < ONE_RAW
}

/// The cube point of three draws.
pub fn cube_point(a: Scalar, b: Scalar, c: Scalar) -> (p: Vec3)
    ensures
        p == cube_point_spec(a, b, c),
{
    let one: Scalar = Scalar::from_int(1);
    Scalar::from_int(2) * Vec3::new(a, b, c) - Vec3::new(one, one, one)
}

/// The square point of two draws.
pub fn square_point(a: Scalar, b: Scalar) -> (p: Vec3)
    ensures
        p == square_point_spec(a, b),
{
    let one: Scalar = Scalar::from_int(1);
    let zero: Scalar = Scalar::from_int(0);
    Scalar::from_int(2) * Vec3::new(a, b, zero) - Vec3::new(one, one, zero)
}

/// The centre of the cube is the cube point of three draws of one half, and
/// lies in the ball; likewise for the square and the disk.
pub proof fn lemma_centre_in_ball()
    ensures
        in_unit_ball(Vec3 { x: Scalar::of_int(0), y: Scalar::of_int(0), z: Scalar::of_int(0) }),
        in_unit_disk(Vec3 { x: Scalar::of_int(0), y: Scalar::of_int(0), z: Scalar::of_int(0) }),
{
    let half = Scalar { raw: 0x80_0000 };
    let zero = Scalar::of_int(0);
    assert(half@ == 0x80_0000);
    assert(Scalar::of_int(2)@ == 0x200_0000);
    assert(half@ * Scalar::of_int(2)@ == 0x1_0000_0000_0000);
    assert(0x1_0000_0000_0000int / 0x100_0000int == 0x100_0000int);
    assert(crate::scalar::quot(0x1_0000_0000_0000, 0x100_0000) == 0x100_0000);
    assert(half.times(Scalar::of_int(2)).minus(Scalar::of_int(1)) == zero);
    assert(zero.times(Scalar::of_int(2)).minus(zero) == zero);
    assert(zero.times(zero) == zero);
    let p = cube_point_spec(half, half, half);
    assert(p == Vec3 { x: zero, y: zero, z: zero });
    assert(p.squared_norm_spec() == zero);
    let q = square_point_spec(half, half);
    assert(q == Vec3 { x: zero, y: zero, z: zero });
    assert(q.dot_spec(&q) == zero);
}

/// The draws that a sampler will give: the draw at `i` is the one that
/// comes once `i` others have been given.
pub type Stream = spec_fn(nat) -> Scalar;

/// The stream that is left of `stream` once `taken` draws have been given.
pub open spec fn rest(stream: Stream, taken: nat) -> Stream {
    |i: nat| stream(i + taken)
}

/// To take some draws and then some more is to take their sum.
pub proof fn lemma_rest_of_rest(stream: Stream, first: nat, second: nat)
    ensures
        rest(rest(stream, first), second) == rest(stream, first + second),
        rest(stream, 0) == stream,
{
    assert(rest(rest(stream, first), second) =~= rest(stream, first + second));
    assert(rest(stream, 0) =~= stream);
}

impl Sampler {
    /// The word that the sampler will take from its generator once it has
    /// taken `skipped` others.
    pub closed spec fn word(&self, skipped: nat) -> u32 {
        word_after(self.rng, skipped)
    }

    /// The draw that the sampler will give once it has given `skipped`
    /// others: the upper 24 bits of the word, taken as the fraction.
    pub open spec fn draw(&self, skipped: nat) -> Scalar {
        Scalar { raw: (self.word(skipped) / 256) as i64 }
    }

    /// The draws that the sampler will give.
    pub open spec fn stream(&self) -> Stream {
        |i: nat| self.draw(i)
    }

    /// Whether the stream of the sampler is that of the generator made
    /// from `seed`.
    pub open spec fn seeded_by(&self, seed: u64) -> bool {
        forall|i: nat| #[trigger] self.word(i) == seeded_word(seed, i)
    }

    /// Every draw of a sampler lies in the unit interval.
    pub proof fn lemma_draws_in_unit_interval(&self)
        ensures
            forall|i: nat| is_unit_draw(#[trigger] self.stream()(i)),
    {
    }

    /// A sampler whose stream is fixed by `seed`: two samplers made from
    /// one seed give the same draws.
    pub fn seeded(seed: u64) -> (out: Sampler)
        ensures
            out.seeded_by(seed),
    {
        Sampler { rng: generator_from_seed(seed) }
    }

    /// The next draw from `[0, 1)`: the upper 24 bits of the next word of
    /// the generator, taken as the fraction. The sampler goes on with the
    /// draws after that.
    pub fn uniform(&mut self) -> (u: Scalar)
        ensures
            u == old(self).stream()(0),
            final(self).stream() == rest(old(self).stream(), 1),
            is_unit_draw(u),
    {
        let ghost before = self.stream();
        let word: u32 = next_word(&mut self.rng);
        let upper: u32 = word >> 8;
        assert(upper < 0x100_0000 && upper == word / 256) by (bit_vector)
            requires
                upper == word >> 8,
        ;
        assert(self.stream() =~= rest(before, 1));
        Scalar { raw: upper as i64 }
    }
}

/// The candidate of number `j` for a point of the ball: the cube point of
/// three draws that follow one another.
pub open spec fn ball_candidate(stream: Stream, j: nat) -> Vec3 {
    cube_point_spec(stream(3 * j), stream(3 * j + 1), stream(3 * j + 2))
}

/// The candidate of number `j` for a point of the disk: the square point
/// of two draws that follow one another.
pub open spec fn disk_candidate(stream: Stream, j: nat) -> Vec3 {
    square_point_spec(stream(2 * j), stream(2 * j + 1))
}

/// Whether a candidate lies in the open unit ball.
pub open spec fn accepted_in_ball(p: Vec3) -> bool {
    p.squared_norm_spec()@ < ONE_RAW
}

/// Whether a candidate lies in the open unit disk.
pub open spec fn accepted_in_disk(p: Vec3) -> bool {
    p.dot_spec(&p)@ < ONE_RAW
}

/// The number of the first candidate from `from` on that lies in the
/// ball, and `limit` where none before `limit` does.
pub open spec fn first_in_ball(stream: Stream, from: nat, limit: nat) -> nat
    decreases limit - from,
{
    if from >= limit {
        limit
    } else if accepted_in_ball(ball_candidate(stream, from)) {
        from
    } else {
        first_in_ball(stream, from + 1, limit)
    }
}

/// The number of the first candidate from `from` on that lies in the
/// disk, and `limit` where none before `limit` does.
pub open spec fn first_in_disk(stream: Stream, from: nat, limit: nat) -> nat
    decreases limit - from,
{
    if from >= limit {
        limit
    } else if accepted_in_disk(disk_candidate(stream, from)) {
        from
    } else {
        first_in_disk(stream, from + 1, limit)
    }
}

/// The zero vector, which is the centre of the ball and of the disk.
pub open spec fn centre() -> Vec3 {
    Vec3 { x: Scalar::of_int(0), y: Scalar::of_int(0), z: Scalar::of_int(0) }
}

/// Specification of [`random_in_unit_sphere`]: the first of the
/// candidates of the stream that lies in the ball, and the centre where
/// none of the first [`MAX_TRIES`] does.
pub open spec fn ball_point_spec(stream: Stream) -> Vec3 {
    let k = first_in_ball(stream, 0, MAX_TRIES as nat);
    if k < MAX_TRIES {
        ball_candidate(stream, k)
    } else {
        centre()
    }
}

/// How many draws [`random_in_unit_sphere`] takes: three for each
/// candidate up to the one that it returns.
pub open spec fn ball_taken(stream: Stream) -> nat {
    let k = first_in_ball(stream, 0, MAX_TRIES as nat);
    if k < MAX_TRIES {
        3 * (k + 1)
    } else {
        3 * (MAX_TRIES as nat)
    }
}

/// Specification of [`random_in_unit_disk`]: the first of the candidates
/// of the stream that lies in the disk, and the centre where none of the
/// first [`MAX_TRIES`] does.
pub open spec fn disk_point_spec(stream: Stream) -> Vec3 {
    let k = first_in_disk(stream, 0, MAX_TRIES as nat);
    if k < MAX_TRIES {
        disk_candidate(stream, k)
    } else {
        centre()
    }
}

/// How many draws [`random_in_unit_disk`] takes: two for each candidate
/// up to the one that it returns.
pub open spec fn disk_taken(stream: Stream) -> nat {
    let k = first_in_disk(stream, 0, MAX_TRIES as nat);
    if k < MAX_TRIES {
        2 * (k + 1)
    } else {
        2 * (MAX_TRIES as nat)
    }
}

/// Draws one candidate for a point of the ball.
fn draw_ball_candidate(rng: &mut Sampler) -> (p: Vec3)
    ensures
        p == ball_candidate(old(rng).stream(), 0),
        final(rng).stream() == rest(old(rng).stream(), 3),
        accepted_in_ball(p) ==> in_unit_ball(p),
{
    let ghost start = rng.stream();
    let a: Scalar = rng.uniform();
    let b: Scalar = rng.uniform();
    let c: Scalar = rng.uniform();
    proof {
        lemma_rest_of_rest(start, 1, 1);
        lemma_rest_of_rest(start, 2, 1);
    }
    cube_point(a, b, c)
}

/// Draws one candidate for a point of the disk.
fn draw_disk_candidate(rng: &mut Sampler) -> (p: Vec3)
    ensures
        p == disk_candidate(old(rng).stream(), 0),
        final(rng).stream() == rest(old(rng).stream(), 2),
        accepted_in_disk(p) ==> in_unit_disk(p),
{
    let ghost start = rng.stream();
    let a: Scalar = rng.uniform();
    let b: Scalar = rng.uniform();
    proof {
        lemma_rest_of_rest(start, 1, 1);
    }
    square_point(a, b)
}

/// A random point of the open unit ball. Candidates are drawn uniformly
/// from the enclosing cube, three draws for each, and rejected while they
/// lie outside the ball: the first that lies inside is returned. The
/// search is bounded by [`MAX_TRIES`], which no run reaches; the centre
/// stands for its end.
pub fn random_in_unit_sphere(rng: &mut Sampler) -> (p: Vec3)
    ensures
        p == ball_point_spec(old(rng).stream()),
        final(rng).stream() == rest(old(rng).stream(), ball_taken(old(rng).stream())),
        in_unit_ball(p),
{
    let one: Scalar = Scalar::from_int(1);
    let ghost start = rng.stream();
    let mut tries: u64 = 0;
    proof {
        lemma_rest_of_rest(start, 0, 0);
    }
    while tries < MAX_TRIES
        invariant
            one@ == ONE_RAW,
            tries <= MAX_TRIES,
            start == old(rng).stream(),
            rng.stream() == rest(start, 3 * (tries as nat)),
            first_in_ball(start, 0, MAX_TRIES as nat) == first_in_ball(
                start,
                tries as nat,
                MAX_TRIES as nat,
            ),
        decreases MAX_TRIES - tries,
    {
        let p: Vec3 = draw_ball_candidate(rng);
        proof {
            lemma_rest_of_rest(start, 3 * (tries as nat), 3);
            assert(p == ball_candidate(start, tries as nat));
        }
        if p.squared_norm() < one {
            return p;
        }
        tries = tries + 1;
    }
    proof {
        lemma_centre_in_ball();
    }
    let zero: Scalar = Scalar::from_int(0);
    Vec3::new(zero, zero, zero)
}

/// A random point of the open unit disk in the plane `z = 0`, drawn as
/// [`random_in_unit_sphere`] draws from the ball, with two draws for each
/// candidate.
pub fn random_in_unit_disk(rng: &mut Sampler) -> (p: Vec3)
    ensures
        p == disk_point_spec(old(rng).stream()),
        final(rng).stream() == rest(old(rng).stream(), disk_taken(old(rng).stream())),
        in_unit_disk(p),
{
    let one: Scalar = Scalar::from_int(1);
    let ghost start = rng.stream();
    let mut tries: u64 = 0;
    proof {
        lemma_rest_of_rest(start, 0, 0);
    }
    while tries < MAX_TRIES
        invariant
            one@ == ONE_RAW,
            tries <= MAX_TRIES,
            start == old(rng).stream(),
            rng.stream() == rest(start, 2 * (tries as nat)),
            first_in_disk(start, 0, MAX_TRIES as nat) == first_in_disk(
                start,
                tries as nat,
                MAX_TRIES as nat,
            ),
        decreases MAX_TRIES - tries,
    {
        let p: Vec3 = draw_disk_candidate(rng);
        proof {
            lemma_rest_of_rest(start, 2 * (tries as nat), 2);
            assert(p == disk_candidate(start, tries as nat));
        }
        if p.dot(&p) < one {
            return p;
        }
        tries = tries + 1;
    }
    proof {
        lemma_centre_in_ball();
    }
    let zero: Scalar = Scalar::from_int(0);
    Vec3::new(zero, zero, zero)
}

} // verus!
