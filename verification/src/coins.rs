//! Where chance enters the simulation. Every rule is a function of the coins
//! that it is handed; a `CoinSource` supplies them.

use rand::rngs::StdRng;
use rand::{Rng, SeedableRng};
use vstd::prelude::*;
use crate::cells::Cell;

verus! {

/// A supply of coin flips. Nothing is promised of how a flip comes up:
/// whatever uses one is stated for both of its faces.
pub trait CoinSource: Sized {
    /// Whether one flip may come up `coin` and leave the source as `next`.
    /// A source that does not say may give either face and go on as
    /// anything.
    open spec fn gave(&self, next: &Self, coin: bool) -> bool {
        true
    }

    /// The next flip.
    fn flip(&mut self) -> (coin: bool)
        ensures
            old(self).gave(final(self), coin),
    ;
}

/// Whether `flips`, one after the other and in this order, may be what a
/// source that is `from` gives while it becomes `to`.
pub open spec fn gives<R: CoinSource>(from: R, flips: Seq<bool>, to: R) -> bool
    decreases flips.len(),
{
    if flips.len() == 0 {
        from == to
    } else {
        exists|mid: R|
            gives(from, flips.drop_last(), mid) && #[trigger] mid.gave(&to, flips.last())
    }
}

/// One more flip after some.
proof fn lemma_gives_push<R: CoinSource>(from: R, flips: Seq<bool>, mid: R, coin: bool, to: R)
    requires
        gives(from, flips, mid),
        mid.gave(&to, coin),
    ensures
        gives(from, flips.push(coin), to),
{
    let all = flips.push(coin);
    assert(all.drop_last() == flips);
    assert(gives(from, all.drop_last(), mid) && mid.gave(&to, all.last()));
}

/// Some flips after some others.
proof fn lemma_gives_join<R: CoinSource>(from: R, first: Seq<bool>, mid: R, then: Seq<bool>, to: R)
    requires
        gives(from, first, mid),
        gives(mid, then, to),
    ensures
        gives(from, first + then, to),
    decreases then.len(),
{
    if then.len() == 0 {
        assert(first + then == first);
    } else {
        let last = choose|last: R|
            gives(mid, then.drop_last(), last) && #[trigger] last.gave(&to, then.last());
        lemma_gives_join(from, first, mid, then.drop_last(), last);
        let all = first + then;
        assert(all.drop_last() == first + then.drop_last());
        assert(gives(from, all.drop_last(), last) && last.gave(&to, all.last()));
    }
}

/// `rand::rngs::StdRng`, the generator behind `SeededCoins`. Nothing of its
/// state is known to the proofs.
#[verifier::external_type_specification]
#[verifier::external_body]
pub struct ExStdRng(StdRng);

/// `rand::random::<bool>()`: a coin from the generator that `rand` keeps for
/// the calling thread. Nothing is claimed of the value.
#[verifier::external_body]
fn thread_flip() -> bool {
    rand::random::<bool>()
}

/// `StdRng::seed_from_u64(seed)`: a generator started from `seed`. Nothing is
/// claimed of the value.
#[verifier::external_body]
fn seeded_rng(seed: u64) -> StdRng {
    StdRng::seed_from_u64(seed)
}

/// `Rng::gen::<bool>()` on a `StdRng`: the generator's next coin. Nothing is
/// claimed of the value, nor of the generator after the call.
#[verifier::external_body]
fn rng_flip(rng: &mut StdRng) -> bool {
    rng.gen::<bool>()
}

/// Coins from the thread's own generator, which the system seeds.
pub struct ThreadCoins {}

impl ThreadCoins {
    /// A handle on the thread's generator.
    pub fn new() -> ThreadCoins {
        ThreadCoins {  }
    }
}

impl CoinSource for ThreadCoins {
    fn flip(&mut self) -> bool {
        thread_flip()
    }
}

/// Coins from a generator started from a seed: two sources made from one
/// seed by one build of the program give the same flips.
pub struct SeededCoins {
    rng: StdRng,
}

impl SeededCoins {
    /// A source started from `seed`.
    pub fn new(seed: u64) -> SeededCoins {
        SeededCoins { rng: seeded_rng(seed) }
    }
}

impl CoinSource for SeededCoins {
    fn flip(&mut self) -> bool {
        rng_flip(&mut self.rng)
    }
}

/// `a`, moved one down if `dec` and one up if `inc`.
pub open spec fn nudged(a: int, dec: bool, inc: bool) -> int {
    a - (if dec { 1int } else { 0int }) + (if inc { 1int } else { 0int })
}

/// `a` after two coins: `dec` takes one off, `inc` puts one on.
pub fn nudge(a: i32, dec: bool, inc: bool) -> (r: i32)
    requires
        i32::MIN < a < i32::MAX,
    ensures
        r == nudged(a as int, dec, inc),
{
    let mut da: i32 = a;
    if dec {
        da = da - 1;
    }
    if inc {
        da = da + 1;
    }
    da
}

/// The four coins that pick one of the nine cells around a cell, itself
/// included: each axis is moved by its two coins, so that the middle is
/// twice as likely as either side.
#[derive(Copy, Clone, Debug, PartialEq, Eq, Structural)]
pub struct Probe {
    pub dec_x: bool,
    pub inc_x: bool,
    pub dec_y: bool,
    pub inc_y: bool,
}

impl Probe {
    /// The cell that the probe picks around `(x, y)`.
    pub open spec fn target(self, x: int, y: int) -> (int, int) {
        (nudged(x, self.dec_x, self.inc_x), nudged(y, self.dec_y, self.inc_y))
    }

    /// Whether all four coins came up `false`.
    pub open spec fn is_still(self) -> bool {
        !self.dec_x && !self.inc_x && !self.dec_y && !self.inc_y
    }

    /// The four coins, in the order in which they are flipped.
    pub open spec fn coins(self) -> Seq<bool> {
        seq![self.dec_x, self.inc_x, self.dec_y, self.inc_y]
    }

    /// Four flips of `rng`, in the order of the fields: the probe holds
    /// what `rng` gave, and `rng` has given nothing else.
    pub fn draw<R: CoinSource>(rng: &mut R) -> (p: Probe)
        ensures
            gives(*old(rng), p.coins(), *final(rng)),
    {
        let ghost s0 = *rng;
        let dec_x = rng.flip();
        let ghost s1 = *rng;
        let inc_x = rng.flip();
        let ghost s2 = *rng;
        let dec_y = rng.flip();
        let ghost s3 = *rng;
        let inc_y = rng.flip();
        proof {
            let none = Seq::<bool>::empty();
            lemma_gives_push(s0, none, s0, dec_x, s1);
            lemma_gives_push(s0, none.push(dec_x), s1, inc_x, s2);
            lemma_gives_push(s0, none.push(dec_x).push(inc_x), s2, dec_y, s3);
            lemma_gives_push(s0, none.push(dec_x).push(inc_x).push(dec_y), s3, inc_y, *rng);
            assert(none.push(dec_x).push(inc_x).push(dec_y).push(inc_y) == seq![
                dec_x,
                inc_x,
                dec_y,
                inc_y,
            ]);
        }
        Probe { dec_x, inc_x, dec_y, inc_y }
    }

    /// The probe of four coins that all came up `false`: it picks the cell
    /// itself.
    pub fn still() -> (p: Probe)
        ensures
            p.is_still(),
    {
        Probe { dec_x: false, inc_x: false, dec_y: false, inc_y: false }
    }

    /// The cell that the probe picks around `(x, y)`.
    pub fn at(&self, x: i32, y: i32) -> (t: (i32, i32))
        requires
            i32::MIN < x < i32::MAX,
            i32::MIN < y < i32::MAX,
        ensures
            t.0 == self.target(x as int, y as int).0,
            t.1 == self.target(x as int, y as int).1,
    {
        (nudge(x, self.dec_x, self.inc_x), nudge(y, self.dec_y, self.inc_y))
    }
}

/// `a` moved by two flips of `rng`: the first may take one off, the second
/// may put one on, and `rng` has given nothing else.
pub fn random_axis<R: CoinSource>(a: i32, rng: &mut R) -> (r: i32)
    requires
        i32::MIN < a < i32::MAX,
    ensures
        a - 1 <= r <= a + 1,
        exists|dec: bool, inc: bool|
            gives(*old(rng), seq![dec, inc], *final(rng)) && r == #[trigger] nudged(
                a as int,
                dec,
                inc,
            ),
{
    let ghost s0 = *rng;
    let dec = rng.flip();
    let ghost s1 = *rng;
    let inc = rng.flip();
    proof {
        let none = Seq::<bool>::empty();
        lemma_gives_push(s0, none, s0, dec, s1);
        lemma_gives_push(s0, none.push(dec), s1, inc, *rng);
        assert(none.push(dec).push(inc) == seq![dec, inc]);
    }
    nudge(a, dec, inc)
}

/// One of the nine cells around `(x, y)`, itself included: the one that a
/// probe of four flips of `rng` picks.
pub fn random_dir<R: CoinSource>(x: i32, y: i32, rng: &mut R) -> (t: (i32, i32))
    requires
        i32::MIN < x < i32::MAX,
        i32::MIN < y < i32::MAX,
    ensures
        x - 1 <= t.0 <= x + 1,
        y - 1 <= t.1 <= y + 1,
        exists|p: Probe|
            #[trigger] gives(*old(rng), p.coins(), *final(rng)) && t.0 == p.target(
                x as int,
                y as int,
            ).0 && t.1 == p.target(x as int, y as int).1,
{
    let p = Probe::draw(rng);
    p.at(x, y)
}

/// All the coins that one evaluation of a cell may use. A rule reads the
/// fields that it needs and no others.
#[derive(Copy, Clone, Debug, PartialEq, Eq, Structural)]
pub struct Draws {
    /// Picks the neighbor that is tested for acid.
    pub acid: Probe,
    /// Picks the neighbor that is tested for fire.
    pub fire: Probe,
    /// Picks the neighbor that fire spreads to, or a vine grows into.
    pub reach: Probe,
    /// The side that a falling cell tries after straight down: right if set.
    pub right: bool,
    /// Whether spreading fire cools by two rather than by one.
    pub quick: bool,
    /// May move still water one to the left.
    pub drift_dec: bool,
    /// May move still water one to the right.
    pub drift_inc: bool,
}

impl Draws {
    /// Whether every coin came up `false`.
    pub open spec fn is_still(self) -> bool {
        &&& self.acid.is_still()
        &&& self.fire.is_still()
        &&& self.reach.is_still()
        &&& !self.right
        &&& !self.quick
        &&& !self.drift_dec
        &&& !self.drift_inc
    }

    /// The draws of coins that all came up `false`.
    pub fn still() -> (d: Draws)
        ensures
            d.is_still(),
    {
        Draws {
            acid: Probe::still(),
            fire: Probe::still(),
            reach: Probe::still(),
            right: false,
            quick: false,
            drift_dec: false,
            drift_inc: false,
        }
    }

    /// The coins that the rule of `cell` reads, in the order in which they
    /// are flipped for it: for sand the probe for acid and the side; for
    /// wood the probe for fire; for fire the probe that it reaches with and
    /// the coin that cools it; for a seed and for acid the side; for a vine
    /// the probes for fire and for acid and the one that it reaches with;
    /// for water the probe for acid and, if it is still, the two coins that
    /// set it drifting; for `Air` none.
    pub open spec fn coins_for(self, cell: Cell) -> Seq<bool> {
        match cell {
            Cell::Air => Seq::empty(),
            Cell::Sand => self.acid.coins().push(self.right),
            Cell::Wood { .. } => self.fire.coins(),
            Cell::Fire { .. } => self.reach.coins().push(self.quick),
            Cell::Seed => seq![self.right],
            Cell::Vine { .. } => self.fire.coins() + self.acid.coins() + self.reach.coins(),
            Cell::Water { dx } => if dx == 0 {
                self.acid.coins().push(self.drift_dec).push(self.drift_inc)
            } else {
                self.acid.coins()
            },
            Cell::Acid { .. } => seq![self.right],
        }
    }

    /// Flips, from `rng`, the coins that the rule of `cell` reads, in their
    /// order, and no others; the coins that the rule does not read are left
    /// `false`.
    pub fn draw_for<R: CoinSource>(cell: Cell, rng: &mut R) -> (d: Draws)
        ensures
            gives(*old(rng), d.coins_for(cell), *final(rng)),
            d.acid.is_still() || cell is Sand || cell is Vine || cell is Water,
            d.fire.is_still() || cell is Wood || cell is Vine,
            d.reach.is_still() || cell is Fire || cell is Vine,
            !d.right || cell is Sand || cell is Seed || cell is Acid,
            !d.quick || cell is Fire,
            !(d.drift_dec || d.drift_inc) || cell == (Cell::Water { dx: 0 }),
    {
        let ghost s0 = *rng;
        let ghost none = Seq::<bool>::empty();
        let mut d = Draws::still();
        match cell {
            Cell::Air => {},
            Cell::Sand => {
                d.acid = Probe::draw(rng);
                let ghost s1 = *rng;
                d.right = rng.flip();
                proof {
                    lemma_gives_push(s0, d.acid.coins(), s1, d.right, *rng);
                }
            },
            Cell::Wood { .. } => {
                d.fire = Probe::draw(rng);
            },
            Cell::Fire { .. } => {
                d.reach = Probe::draw(rng);
                let ghost s1 = *rng;
                d.quick = rng.flip();
                proof {
                    lemma_gives_push(s0, d.reach.coins(), s1, d.quick, *rng);
                }
            },
            Cell::Seed => {
                d.right = rng.flip();
                proof {
                    lemma_gives_push(s0, none, s0, d.right, *rng);
                    assert(none.push(d.right) == seq![d.right]);
                }
            },
            Cell::Vine { .. } => {
                d.fire = Probe::draw(rng);
                let ghost s1 = *rng;
                d.acid = Probe::draw(rng);
                let ghost s2 = *rng;
                d.reach = Probe::draw(rng);
                proof {
                    lemma_gives_join(s0, d.fire.coins(), s1, d.acid.coins(), s2);
                    lemma_gives_join(
                        s0,
                        d.fire.coins() + d.acid.coins(),
                        s2,
                        d.reach.coins(),
                        *rng,
                    );
                }
            },
            Cell::Water { dx } => {
                d.acid = Probe::draw(rng);
                if dx == 0 {
                    let ghost s1 = *rng;
                    d.drift_dec = rng.flip();
                    let ghost s2 = *rng;
                    d.drift_inc = rng.flip();
                    proof {
                        lemma_gives_push(s0, d.acid.coins(), s1, d.drift_dec, s2);
                        lemma_gives_push(
                            s0,
                            d.acid.coins().push(d.drift_dec),
                            s2,
                            d.drift_inc,
                            *rng,
                        );
                    }
                }
            },
            Cell::Acid { .. } => {
                d.right = rng.flip();
                proof {
                    lemma_gives_push(s0, none, s0, d.right, *rng);
                    assert(none.push(d.right) == seq![d.right]);
                }
            },
        }
        d
    }
}

} // verus!
