//! The Source engine's `CUniformRandomStream`: a Park-Miller minimal standard
//! generator (multiplier 16807, modulus 2^31 - 1) behind a 32-entry
//! Bays-Durham shuffle table. Bullet spread seeds are replayed through it.
use vstd::arithmetic::div_mod::lemma_fundamental_div_mod_converse;
use vstd::prelude::*;

verus! {

pub const IA: i32 = 16807;

pub const IM: i32 = 2147483647;

pub const IQ: i32 = 127773;

pub const IR: i32 = 2836;

pub const NTAB: usize = 32;

/// `1 + (IM - 1) / NTAB`: the width of the slice of `[0, IM)` that each
/// shuffle-table slot answers for.
pub const NDIV: i32 = 67108864;

/// The number of warm-up draws made when the table is (re)filled.
pub const WARMUP: usize = 40;

/// One step of the minimal standard generator.
pub open spec fn lcg_next(x: int) -> int {
    (IA * x) % (IM as int)
}

/// `n` steps of the minimal standard generator from `x`.
pub open spec fn lcg_iter(x: int, n: nat) -> int
    decreases n,
{
    if n == 0 {
        x
    } else {
        lcg_next(lcg_iter(x, (n - 1) as nat))
    }
}

/// What the generator's state means: the current generator value, the last
/// value handed out, and the shuffle table.
pub struct StreamModel {
    pub idum: int,
    pub iy: int,
    pub table: Seq<int>,
}

/// The generator value that a refill starts from.
pub open spec fn refill_start(idum: int) -> int {
    if idum < 0 {
        -idum
    } else {
        1
    }
}

/// Whether a draw starts by refilling the shuffle table.
pub open spec fn needs_refill(m: StreamModel) -> bool {
    m.idum <= 0 || m.iy == 0
}

/// The state right after a refill from `start`: forty warm-up steps, of which
/// the last thirty-two fill the table from slot 31 down to slot 0.
pub open spec fn refilled(start: int) -> StreamModel {
    StreamModel {
        idum: lcg_iter(start, 40),
        iy: lcg_iter(start, 40),
        table: Seq::new(32, |i: int| lcg_iter(start, (40 - i) as nat)),
    }
}

/// The state a draw works from.
pub open spec fn before_draw(m: StreamModel) -> StreamModel {
    if needs_refill(m) {
        refilled(refill_start(m.idum))
    } else {
        m
    }
}

/// The shuffle-table slot that a draw reads.
pub open spec fn draw_slot(m: StreamModel) -> int {
    before_draw(m).iy / (NDIV as int)
}

/// The value a draw returns.
pub open spec fn draw_value(m: StreamModel) -> int {
    before_draw(m).table[draw_slot(m)]
}

/// The state after a draw.
pub open spec fn after_draw(m: StreamModel) -> StreamModel {
    let b = before_draw(m);
    let next = lcg_next(b.idum);
    StreamModel {
        idum: next,
        iy: b.table[draw_slot(m)],
        table: b.table.update(draw_slot(m), next),
    }
}

/// Schrage's decomposition computes `IA * x mod IM` inside 32 bits: with
/// `k = x / IQ`, the value `IA * (x - k * IQ) - IR * k` is that residue,
/// or that residue minus `IM`.
pub proof fn lemma_schrage(x: int)
    requires
        0 <= x <= IM,
    ensures
        ({
            let k = x / (IQ as int);
            let t = IA * (x - k * IQ) - IR * k;
            &&& 0 <= k * IQ <= x
            &&& 0 <= IA * (x - k * IQ) <= 2147464004
            &&& 0 <= IR * k <= 47664652
            &&& -(IM as int) < t < IM
            &&& t >= 0 ==> t == lcg_next(x)
            &&& t < 0 ==> t + IM == lcg_next(x)
        }),
{
    let k = x / (IQ as int);
    let r = x % (IQ as int);
    assert(x == k * IQ + r && 0 <= r < IQ && 0 <= k <= 16807) by (nonlinear_arith)
        requires
            0 <= x <= IM,
            k == x / (IQ as int),
            r == x % (IQ as int),
    ;
    assert(0 <= IA * r <= 2147464004) by (nonlinear_arith)
        requires
            0 <= r < IQ,
    ;
    assert(0 <= IR * k <= 47664652) by (nonlinear_arith)
        requires
            0 <= k <= 16807,
    ;
    let t = IA * r - IR * k;
    assert(IA * x == k * IM + t) by (nonlinear_arith)
        requires
            x == k * IQ + r,
            t == IA * r - IR * k,
    ;
    if t >= 0 {
        lemma_fundamental_div_mod_converse(IA * x, IM as int, k, t);
    } else {
        assert(IA * x == (k - 1) * IM + (t + IM)) by (nonlinear_arith)
            requires
                IA * x == k * IM + t,
        ;
        lemma_fundamental_div_mod_converse(IA * x, IM as int, k - 1, t + IM);
    }
}

/// Every value the generator produces lies in `[0, IM)`.
pub proof fn lemma_lcg_range(x: int, n: nat)
    requires
        n > 0,
    ensures
        0 <= lcg_iter(x, n) < IM,
    decreases n,
{
}

/// The multiplier has an inverse modulo `IM`, so the generator never
/// steps from a value in `[1, IM)` to zero.
pub proof fn lemma_lcg_nonzero(x: int)
    requires
        1 <= x < IM,
    ensures
        1 <= lcg_next(x) < IM,
{
    let r = (IA * x) % (IM as int);
    let k = (IA * x) / (IM as int);
    assert(IA * x == k * IM + r && 0 <= r < IM) by (nonlinear_arith)
        requires
            r == (IA * x) % (IM as int),
            k == (IA * x) / (IM as int),
    ;
    if r == 0 {
        let c = 1407677000 * k - 11017 * x;
        assert(x == IM * c) by (nonlinear_arith)
            requires
                IA * x == k * IM,
                c == 1407677000 * k - 11017 * x,
        ;
        assert(false) by (nonlinear_arith)
            requires
                x == IM * c,
                1 <= x < IM,
        ;
    }
}

/// From a value in `[1, IM)` the generator stays in `[1, IM)`.
pub proof fn lemma_lcg_iter_nonzero(x: int, n: nat)
    requires
        1 <= x < IM,
    ensures
        1 <= lcg_iter(x, n) < IM,
    decreases n,
{
    if n > 0 {
        lemma_lcg_iter_nonzero(x, (n - 1) as nat);
        lemma_lcg_nonzero(lcg_iter(x, (n - 1) as nat));
    }
}

/// The states reachable from a new stream or a seed: well formed, and
/// either about to refill from a value in `[1, IM)`, or running with the
/// generator value and every table slot in `[1, IM)` and a last output that
/// is not zero.
pub open spec fn stream_live(m: StreamModel) -> bool {
    &&& stream_wf(m)
    &&& if needs_refill(m) {
        1 <= refill_start(m.idum) < IM
    } else {
        &&& 1 <= m.idum < IM
        &&& forall|i: int| 0 <= i < 32 ==> 1 <= #[trigger] m.table[i]
    }
}

/// From a live state every draw is at least 1, and the state stays live:
/// by induction, every number drawn after `new` or after a seed other than
/// `i32::MIN`, `i32::MAX` and `-i32::MAX` lies in `[1, IM - 1]`.
pub proof fn lemma_live_draw(m: StreamModel)
    requires
        stream_live(m),
    ensures
        1 <= draw_value(m) < IM,
        0 <= draw_slot(m) < 32,
        stream_live(after_draw(m)),
{
    let b = before_draw(m);
    if needs_refill(m) {
        let start = refill_start(m.idum);
        lemma_lcg_iter_nonzero(start, 40);
        assert forall|i: int| 0 <= i < 32 implies 1 <= #[trigger] b.table[i] < IM by {
            lemma_lcg_iter_nonzero(start, (40 - i) as nat);
        }
    }
    assert(1 <= b.idum < IM);
    assert(0 <= b.iy <= i32::MAX);
    assert(0 <= draw_slot(m) < 32);
    lemma_lcg_nonzero(b.idum);
    let a = after_draw(m);
    assert(1 <= b.table[draw_slot(m)] < IM);
    assert forall|i: int| 0 <= i < 32 implies 1 <= #[trigger] a.table[i] < IM by {
        if i != draw_slot(m) {
            assert(a.table[i] == b.table[i]);
        }
    }
}

/// The first `n` numbers drawn from state `m`, in order.
pub open spec fn draws_from(m: StreamModel, n: nat) -> Seq<int>
    decreases n,
{
    if n == 0 {
        Seq::empty()
    } else {
        seq![draw_value(m)] + draws_from(after_draw(m), (n - 1) as nat)
    }
}

/// The state `set_seed(seed)` leaves, over a shuffle table `table`.
pub open spec fn seeded(seed: i32, table: Seq<int>) -> StreamModel {
    StreamModel {
        idum: if seed < 0 {
            seed as int
        } else {
            -seed
        },
        iy: 0,
        table,
    }
}

/// The first `n` numbers of Source's `CUniformRandomStream` seeded with
/// `seed`: the generator value starts at `-|seed|` (1 where that is 0), the
/// table is refilled after eight warm-up steps, and each draw hands out
/// the table slot picked by the previous output.
pub open spec fn source_sequence(seed: i32, n: nat) -> Seq<int> {
    draws_from(seeded(seed, Seq::new(32, |i: int| 0int)), n)
}

/// After a seed, the numbers drawn depend on the seed alone: whatever the
/// shuffle table held before, the draws are Source's sequence for the seed.
pub proof fn lemma_seeded_sequence(seed: i32, table: Seq<int>, n: nat)
    ensures
        draws_from(seeded(seed, table), n) == source_sequence(seed, n),
{
    let a = seeded(seed, table);
    let b = seeded(seed, Seq::new(32, |i: int| 0int));
    assert(before_draw(a) == before_draw(b));
    if n > 0 {
        assert(draw_value(a) == draw_value(b));
        assert(after_draw(a) == after_draw(b));
    }
}

/// Source's `CUniformRandomStream`.
pub struct UniformRandomStream {
    m_idum: i32,
    m_iy: i32,
    m_iv: [i32; 32],
}

impl View for UniformRandomStream {
    type V = StreamModel;

    closed spec fn view(&self) -> StreamModel {
        StreamModel {
            idum: self.m_idum as int,
            iy: self.m_iy as int,
            table: self.m_iv@.map_values(|v: i32| v as int),
        }
    }
}

/// The states on which a draw is defined: the generator value can be
/// negated, and the last output and the table hold no negative value.
pub open spec fn stream_wf(m: StreamModel) -> bool {
    &&& m.idum > i32::MIN
    &&& m.idum <= i32::MAX
    &&& 0 <= m.iy <= i32::MAX
    &&& m.table.len() == 32
    &&& forall|i: int| 0 <= i < 32 ==> 0 <= #[trigger] m.table[i] < IM
}

impl UniformRandomStream {
    /// A stream with every field zero; the first draw fills the table.
    pub fn new() -> (s: Self)
        ensures
            s@.idum == 0,
            s@.iy == 0,
            s@.table == Seq::new(32, |i: int| 0int),
            stream_wf(s@),
            stream_live(s@),
            forall|n: nat| #[trigger] draws_from(s@, n) == source_sequence(0, n),
    {
        let s = Self { m_idum: 0, m_iy: 0, m_iv: [0; 32] };
        proof {
            assert(s@.table =~= Seq::new(32, |i: int| 0int));
            assert(s@ == seeded(0, Seq::new(32, |i: int| 0int)));
        }
        s
    }

    /// Restarts the stream from `i_seed`: the generator value becomes the
    /// seed made non-positive, and the next draw refills the table.
    pub fn set_seed(&mut self, i_seed: i32)
        ensures
            final(self)@.idum == (if i_seed < 0 {
                i_seed as int
            } else {
                -i_seed
            }),
            final(self)@.iy == 0,
            final(self)@.table == old(self)@.table,
            stream_wf(final(self)@) <==> (i_seed != i32::MIN && stream_wf(
                StreamModel { idum: 0, iy: 0, table: old(self)@.table },
            )),
            stream_wf(old(self)@) && i_seed != i32::MIN && i_seed != i32::MAX && i_seed != -i32::MAX
                ==> stream_live(final(self)@),
            forall|n: nat| #[trigger] draws_from(final(self)@, n) == source_sequence(i_seed, n),
    {
        self.m_idum = if i_seed < 0 {
            i_seed
        } else {
            -i_seed
        };
        self.m_iy = 0;
        proof {
            assert(self@ == seeded(i_seed, old(self)@.table));
            assert forall|n: nat| #[trigger] draws_from(self@, n) == source_sequence(i_seed, n) by {
                lemma_seeded_sequence(i_seed, old(self)@.table, n);
            }
        }
    }

    /// One step of the minimal standard generator, by Schrage's method.
    fn step(x: i32) -> (r: i32)
        requires
            0 <= x,
        ensures
            r == lcg_next(x as int),
            0 <= r < IM,
    {
        proof {
            lemma_schrage(x as int);
        }
        let k = x / IQ;
        let mut r = IA * (x - k * IQ) - IR * k;
        if r < 0 {
            r += IM;
        }
        r
    }

    /// Draws the next number: refills the shuffle table first when the
    /// stream was just seeded, then advances the generator, hands out the
    /// table slot picked by the previous output and stores the new
    /// generator value there.
    pub fn generate_random_number(&mut self) -> (r: i32)
        requires
            stream_wf(old(self)@),
        ensures
            r == draw_value(old(self)@),
            final(self)@ == after_draw(old(self)@),
            stream_wf(final(self)@),
            0 <= r < IM,
            stream_live(old(self)@) ==> 1 <= r && stream_live(final(self)@),
            forall|n: nat|
                #[trigger] draws_from(old(self)@, n + 1) == seq![r as int] + draws_from(final(self)@, n),
    {
        proof {
            if stream_live(self@) {
                lemma_live_draw(self@);
            }
        }
        let ghost m0 = self@;
        if self.m_idum <= 0 || self.m_iy == 0 {
            if -self.m_idum < 1 {
                self.m_idum = 1;
            } else {
                self.m_idum = -self.m_idum;
            }
            let ghost start = self.m_idum as int;
            assert(start == refill_start(m0.idum));
            assert forall|i: int| 0 <= i < 32 implies 0 <= #[trigger] self.m_iv@[i] by {
                assert(m0.table[i] == self.m_iv@[i] as int);
            }
            let mut j: usize = NTAB + 8;
            while j > 0
                invariant
                    j <= 40,
                    self.m_idum as int == lcg_iter(start, (40 - j) as nat),
                    1 <= start <= i32::MAX,
                    forall|i: int|
                        j <= i < 32 ==> #[trigger] self.m_iv@[i] as int == lcg_iter(
                            start,
                            (40 - i) as nat,
                        ),
                    forall|i: int| 0 <= i < 32 ==> 0 <= #[trigger] self.m_iv@[i],
                decreases j,
            {
                j -= 1;
                proof {
                    if 40 - j >= 2 {
                        lemma_lcg_range(start, (39 - j) as nat);
                    }
                }
                self.m_idum = Self::step(self.m_idum);
                if j < NTAB {
                    self.m_iv[j] = self.m_idum;
                }
            }
            self.m_iy = self.m_iv[0];
            proof {
                assert(self@.table =~= refilled(start).table);
            }
        }
        assert(self@ == before_draw(m0));
        let next = Self::step(self.m_idum);
        self.m_idum = next;
        let j = (self.m_iy / NDIV) as usize;
        assert(j as int == draw_slot(m0));
        assert(self@.table[j as int] == self.m_iv@[j as int] as int);
        self.m_iy = self.m_iv[j];
        self.m_iv[j] = next;
        proof {
            assert(self@.table =~= before_draw(m0).table.update(j as int, next as int));
        }
        self.m_iy
    }
}

} // verus!
