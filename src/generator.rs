use crate::circuit::{body_text, push_body, Op, Signal, Stmt};
use crate::config::CircuitConfig;
use crate::entropy::{chacha_draw, keyed_draw, seed_digest, sha256_of};
use vstd::prelude::*;

verus! {

/// Number of primary inputs of every circuit.
pub const NUM_INPUTS: u64 = 5;

/// The canonical signature of a computed expression.
#[derive(Debug, Clone, Copy, PartialEq, Eq, Structural)]
pub enum CacheKey {
    /// The degree-5 gate on a base signal.
    Pow5(Signal),
    /// A binary operator on two operands.
    Arith(Op, Signal, Signal),
}

/// The state of one generation run: the signal pool with each entry's
/// dependency depth, the expression cache in order of first insertion with
/// the step that last computed each signature, and the body lines so far.
pub struct GenModel {
    pub pool: Seq<(Signal, u64)>,
    pub cache: Seq<(CacheKey, u64)>,
    pub stmts: Seq<Stmt>,
}

/// Which of the three kinds of logic a step emits.
#[derive(PartialEq, Eq, Structural)]
pub enum Branch {
    Redundant,
    PowerMap,
    Fresh,
}

/// Draw `slot` of step `i`, taken below `bound`: step `i` reads streams
/// `4 * i` to `4 * i + 3`, one per draw it may make.
pub open spec fn draw(key: Seq<u8>, i: nat, slot: nat, bound: nat) -> nat {
    chacha_draw(key, (4 * i + slot) as u64, bound as u64) as nat % bound
}

pub open spec fn initial_pool() -> Seq<(Signal, u64)> {
    Seq::new(5, |k: int| (Signal::Input(k as u64), 0u64))
}

pub open spec fn initial_model() -> GenModel {
    GenModel { pool: initial_pool(), cache: Seq::empty(), stmts: Seq::empty() }
}

/// Position of the first entry of `c` with signature `k`, or `c.len()`.
pub open spec fn key_index(c: Seq<(CacheKey, u64)>, k: CacheKey) -> nat
    decreases c.len(),
{
    if c.len() == 0 {
        0
    } else if c[0].0 == k {
        0
    } else {
        1 + key_index(c.subrange(1, c.len() as int), k)
    }
}

/// Records that step `v` computed `k`: an existing entry is overwritten in
/// place, a new signature goes last.
pub open spec fn cache_insert(c: Seq<(CacheKey, u64)>, k: CacheKey, v: u64) -> Seq<(CacheKey, u64)> {
    if key_index(c, k) < c.len() {
        c.update(key_index(c, k) as int, (k, v))
    } else {
        c.push((k, v))
    }
}

/// The unrolled degree-5 gate of step `i` on base `x`.
pub open spec fn pow5_lines(x: Signal, i: u64) -> Seq<Stmt> {
    seq![
        Stmt::Declare(Signal::Square(i)),
        Stmt::Assign(Signal::Square(i), x, Op::Mul, x),
        Stmt::Declare(Signal::Quad(i)),
        Stmt::Assign(Signal::Quad(i), Signal::Square(i), Op::Mul, Signal::Square(i)),
        Stmt::Assign(Signal::Step(i), Signal::Quad(i), Op::Mul, x),
    ]
}

/// The lines by which step `i` computes signature `k` once more.
pub open spec fn reuse_lines(k: CacheKey, i: u64) -> Seq<Stmt> {
    match k {
        CacheKey::Pow5(x) => pow5_lines(x, i),
        CacheKey::Arith(op, a, b) => seq![Stmt::Assign(Signal::Step(i), a, op, b)],
    }
}

pub open spec fn branch_of(key: Seq<u8>, cfg: CircuitConfig, g: GenModel, i: nat) -> Branch {
    let roll = draw(key, i, 0, 100);
    if roll < cfg.redundancy_ratio && g.cache.len() > 0 {
        Branch::Redundant
    } else if roll < cfg.redundancy_ratio + cfg.power_map_ratio {
        Branch::PowerMap
    } else {
        Branch::Fresh
    }
}

pub open spec fn op_of(bit: nat) -> Op {
    if bit == 0 {
        Op::Mul
    } else {
        Op::Add
    }
}

pub open spec fn max_u64(a: u64, b: u64) -> u64 {
    if a >= b {
        a
    } else {
        b
    }
}

/// Step `i` of the generation, from state `g`.
pub open spec fn step(key: Seq<u8>, cfg: CircuitConfig, g: GenModel, i: nat) -> GenModel {
    let s = i as u64;
    let head = g.stmts.push(Stmt::Declare(Signal::Step(s)));
    match branch_of(key, cfg, g, i) {
        Branch::Redundant => {
            let k = g.cache[draw(key, i, 1, g.cache.len()) as int].0;
            GenModel {
                pool: g.pool.push((Signal::Step(s), 0u64)),
                cache: g.cache,
                stmts: head + reuse_lines(k, s),
            }
        },
        Branch::PowerMap => {
            let x = g.pool[draw(key, i, 1, g.pool.len()) as int];
            GenModel {
                pool: g.pool.push((Signal::Step(s), (x.1 + 3) as u64)),
                cache: cache_insert(g.cache, CacheKey::Pow5(x.0), s),
                stmts: head + pow5_lines(x.0, s),
            }
        },
        Branch::Fresh => {
            let op = op_of(draw(key, i, 1, 2));
            let a = g.pool[draw(key, i, 2, g.pool.len()) as int];
            let b = g.pool[draw(key, i, 3, g.pool.len()) as int];
            let depth = (max_u64(a.1, b.1) + 1) as u64;
            let clamp = depth > cfg.max_depth;
            let x = if clamp { Signal::Input(0) } else { a.0 };
            let y = if clamp { Signal::Input(1) } else { b.0 };
            let d = if clamp { 1u64 } else { depth };
            GenModel {
                pool: g.pool.push((Signal::Step(s), d)),
                cache: cache_insert(g.cache, CacheKey::Arith(op, x, y), s),
                stmts: head.push(Stmt::Assign(Signal::Step(s), x, op, y)),
            }
        },
    }
}

/// The state after the first `n` steps.
pub open spec fn run(key: Seq<u8>, cfg: CircuitConfig, n: nat) -> GenModel
    decreases n,
{
    if n == 0 {
        initial_model()
    } else {
        step(key, cfg, run(key, cfg, (n - 1) as nat), (n - 1) as nat)
    }
}

pub open spec fn header_text() -> Seq<char> {
    "pragma circom 2.0.0;\n\ntemplate Challenge() {\n    signal input in[5];\n    signal output out;\n"@
}

/// The signal wired to the output: the last step's result, or the first input
/// when there are no steps.
pub open spec fn output_signal(cfg: CircuitConfig) -> Signal {
    if cfg.num_constraints == 0 {
        Signal::Input(0)
    } else {
        Signal::Step((cfg.num_constraints - 1) as u64)
    }
}

pub open spec fn footer_text(cfg: CircuitConfig) -> Seq<char> {
    "    out <== "@ + crate::circuit::signal_name(output_signal(cfg))
        + ";\n}\ncomponent main = Challenge();\n"@
}

/// The program generated from key material `key` under `cfg`.
pub open spec fn program_text(key: Seq<u8>, cfg: CircuitConfig) -> Seq<char> {
    header_text() + body_text(run(key, cfg, cfg.num_constraints as nat).stmts) + footer_text(cfg)
}

/// The program generated from seed string `seed` under `cfg`.
pub open spec fn generated(seed: Seq<char>, cfg: CircuitConfig) -> Seq<char> {
    program_text(sha256_of(seed), cfg)
}

proof fn lemma_key_index(c: Seq<(CacheKey, u64)>, k: CacheKey, j: nat)
    requires
        j <= c.len(),
        forall|m: int| 0 <= m < j ==> c[m].0 != k,
        j < c.len() ==> c[j as int].0 == k,
    ensures
        key_index(c, k) == j,
    decreases j,
{
    if j > 0 {
        let rest = c.subrange(1, c.len() as int);
        assert(c[0].0 != k);
        assert forall|m: int| 0 <= m < j - 1 implies rest[m].0 != k by {
            assert(rest[m] == c[m + 1]);
        }
        if j < c.len() {
            assert(rest[j - 1] == c[j as int]);
        }
        lemma_key_index(rest, k, (j - 1) as nat);
    }
}

fn cache_put(cache: &mut Vec<(CacheKey, u64)>, k: CacheKey, v: u64)
    ensures
        final(cache)@ == cache_insert(old(cache)@, k, v),
{
    let mut j: usize = 0;
    while j < cache.len()
        invariant
            cache@ == old(cache)@,
            j <= cache@.len(),
            forall|m: int| 0 <= m < j ==> cache@[m].0 != k,
        decreases cache@.len() - j,
    {
        if cache[j].0 == k {
            proof {
                lemma_key_index(cache@, k, j as nat);
            }
            cache.set(j, (k, v));
            return;
        }
        j = j + 1;
    }
    proof {
        lemma_key_index(cache@, k, j as nat);
    }
    cache.push((k, v));
}

fn push_pow5(stmts: &mut Vec<Stmt>, x: Signal, i: u64)
    ensures
        final(stmts)@ == old(stmts)@ + pow5_lines(x, i),
{
    stmts.push(Stmt::Declare(Signal::Square(i)));
    stmts.push(Stmt::Assign(Signal::Square(i), x, Op::Mul, x));
    stmts.push(Stmt::Declare(Signal::Quad(i)));
    stmts.push(Stmt::Assign(Signal::Quad(i), Signal::Square(i), Op::Mul, Signal::Square(i)));
    stmts.push(Stmt::Assign(Signal::Step(i), Signal::Quad(i), Op::Mul, x));
    assert(final(stmts)@ =~= old(stmts)@ + pow5_lines(x, i));
}

/// Every depth in `pool` is at most `bound`.
pub open spec fn depths_within(pool: Seq<(Signal, u64)>, bound: int) -> bool {
    forall|j: int| 0 <= j < pool.len() ==> pool[j].1 <= bound
}

/// The draw on stream `stream` below `bound`, as [`draw`] states it.
fn draw_below(key: &[u8; 32], stream: u64, bound: u64) -> (r: u64)
    requires
        bound > 0,
    ensures
        r as nat == chacha_draw(key@, stream, bound) as nat % (bound as nat),
        r < bound,
{
    let r = keyed_draw(key, stream, bound);
    proof {
        vstd::arithmetic::div_mod::lemma_small_mod(r as nat, bound as nat);
    }
    r
}

struct Builder {
    pool: Vec<(Signal, u64)>,
    cache: Vec<(CacheKey, u64)>,
    stmts: Vec<Stmt>,
}

impl Builder {
    spec fn model(&self) -> GenModel {
        GenModel { pool: self.pool@, cache: self.cache@, stmts: self.stmts@ }
    }

    fn step(&mut self, key: &[u8; 32], cfg: &CircuitConfig, i: u64)
        requires
            cfg.wf(),
            i < cfg.num_constraints,
            old(self).pool@.len() == 5 + i,
            depths_within(old(self).pool@, cfg.max_depth + 3 * i),
        ensures
            final(self).model() == step(key@, *cfg, old(self).model(), i as nat),
            final(self).pool@.len() == 5 + i + 1,
            depths_within(final(self).pool@, cfg.max_depth + 3 * (i + 1)),
    {
        let ghost g = self.model();
        let s = i;
        self.stmts.push(Stmt::Declare(Signal::Step(s)));
        let roll = draw_below(key, 4 * i, 100);
        let n = self.pool.len() as u64;
        if roll < cfg.redundancy_ratio && self.cache.len() > 0 {
            let c = self.cache.len() as u64;
            let pick = draw_below(key, 4 * i + 1, c);
            let k = self.cache[pick as usize].0;
            match k {
                CacheKey::Pow5(x) => push_pow5(&mut self.stmts, x, s),
                CacheKey::Arith(op, a, b) => self.stmts.push(Stmt::Assign(Signal::Step(s), a, op, b)),
            }
            self.pool.push((Signal::Step(s), 0));
            assert(self.stmts@ =~= g.stmts.push(Stmt::Declare(Signal::Step(s))) + reuse_lines(k, s));
        } else if roll < cfg.redundancy_ratio + cfg.power_map_ratio {
            let pick = draw_below(key, 4 * i + 1, n);
            let x = self.pool[pick as usize];
            push_pow5(&mut self.stmts, x.0, s);
            cache_put(&mut self.cache, CacheKey::Pow5(x.0), s);
            self.pool.push((Signal::Step(s), x.1 + 3));
        } else {
            let bit = draw_below(key, 4 * i + 1, 2);
            let op = if bit == 0 { Op::Mul } else { Op::Add };
            let a = self.pool[draw_below(key, 4 * i + 2, n) as usize];
            let b = self.pool[draw_below(key, 4 * i + 3, n) as usize];
            let depth = if a.1 >= b.1 { a.1 + 1 } else { b.1 + 1 };
            let (x, y, d) = if depth > cfg.max_depth {
                (Signal::Input(0), Signal::Input(1), 1u64)
            } else {
                (a.0, b.0, depth)
            };
            self.stmts.push(Stmt::Assign(Signal::Step(s), x, op, y));
            cache_put(&mut self.cache, CacheKey::Arith(op, x, y), s);
            self.pool.push((Signal::Step(s), d));
        }
        assert(self.model() == step(key@, *cfg, g, i as nat));
    }
}

/// Generates the program for key material `key`: the body of
/// [`generate_circom_code`] once the seed has been hashed.
pub fn generate_keyed(key: &[u8; 32], config: &CircuitConfig) -> (r: String)
    requires
        config.wf(),
    ensures
        r@ == program_text(key@, *config),
{
    let mut b = Builder { pool: Vec::new(), cache: Vec::new(), stmts: Vec::new() };
    let mut k: u64 = 0;
    while k < NUM_INPUTS
        invariant
            k <= 5,
            b.pool@ == initial_pool().subrange(0, k as int),
            b.cache@.len() == 0,
            b.stmts@.len() == 0,
        decreases 5 - k,
    {
        b.pool.push((Signal::Input(k), 0));
        assert(b.pool@ =~= initial_pool().subrange(0, k + 1));
        k = k + 1;
    }
    assert(b.pool@ =~= initial_pool());
    assert(b.cache@ =~= Seq::<(CacheKey, u64)>::empty());
    assert(b.stmts@ =~= Seq::<Stmt>::empty());
    let mut i: u64 = 0;
    while i < config.num_constraints
        invariant
            config.wf(),
            i <= config.num_constraints,
            b.model() == run(key@, *config, i as nat),
            b.pool@.len() == 5 + i,
            depths_within(b.pool@, config.max_depth + 3 * i),
        decreases config.num_constraints - i,
    {
        b.step(key, config, i);
        i = i + 1;
    }
    let mut out = String::from_str(
        "pragma circom 2.0.0;\n\ntemplate Challenge() {\n    signal input in[5];\n    signal output out;\n",
    );
    push_body(&mut out, &b.stmts);
    out.append("    out <== ");
    if config.num_constraints == 0 {
        crate::circuit::push_signal(&mut out, Signal::Input(0));
    } else {
        crate::circuit::push_signal(&mut out, Signal::Step(config.num_constraints - 1));
    }
    out.append(";\n}\ncomponent main = Challenge();\n");
    assert(out@ =~= program_text(key@, *config));
    out
}

/// Generates the circuit program for `seed` under `config`: the seed's SHA-256
/// digest keys a ChaCha20 generator whose draws steer every step.
pub fn generate_circom_code(seed: &str, config: &CircuitConfig) -> (r: String)
    requires
        config.wf(),
    ensures
        r@ == generated(seed@, *config),
{
    let key = seed_digest(seed);
    generate_keyed(&key, config)
}

} // verus!

verus! {

/// Generation is deterministic: equal seeds and equal configurations give the
/// same program text.
pub proof fn lemma_generation_deterministic(
    s1: Seq<char>,
    s2: Seq<char>,
    c1: CircuitConfig,
    c2: CircuitConfig,
)
    requires
        s1 == s2,
        c1 == c2,
    ensures
        generated(s1, c1) == generated(s2, c2),
{
}

/// The pool only grows: after `n` steps it holds `5 + n` entries, and what the
/// first `m` steps put there stays.
pub proof fn lemma_pool_grows(key: Seq<u8>, cfg: CircuitConfig, m: nat, n: nat)
    requires
        m <= n,
    ensures
        run(key, cfg, n).pool.len() == 5 + n,
        run(key, cfg, m).pool.len() == 5 + m,
        run(key, cfg, n).pool.subrange(0, 5 + m as int) == run(key, cfg, m).pool,
    decreases n,
{
    if n == 0 {
        assert(run(key, cfg, 0).pool =~= initial_pool());
        assert(run(key, cfg, n).pool.subrange(0, 5) =~= run(key, cfg, n).pool);
    } else if m == n {
        lemma_pool_grows(key, cfg, (n - 1) as nat, (n - 1) as nat);
        assert(run(key, cfg, n).pool.subrange(0, 5 + m as int) =~= run(key, cfg, n).pool);
    } else {
        lemma_pool_grows(key, cfg, m, (n - 1) as nat);
        let p = run(key, cfg, (n - 1) as nat).pool;
        assert(run(key, cfg, n).pool.subrange(0, 5 + m as int) =~= p.subrange(0, 5 + m as int));
    }
}

/// Depth bound: the signal made by fresh arithmetic at step `i` never has a
/// dependency depth above `max_depth` (a deeper chain is reset onto the first
/// two inputs), and a re-emitted expression starts a chain anew at depth zero.
pub proof fn lemma_depth_bound(key: Seq<u8>, cfg: CircuitConfig, i: nat, n: nat)
    requires
        cfg.wf(),
        i < n,
    ensures
        branch_of(key, cfg, run(key, cfg, i), i) == Branch::Fresh ==> run(key, cfg, n).pool[5 + i as int].1 <= cfg.max_depth,
        branch_of(key, cfg, run(key, cfg, i), i) == Branch::Redundant ==> run(key, cfg, n).pool[5 + i as int].1 == 0,
{
    lemma_pool_grows(key, cfg, i + 1, n);
    lemma_pool_grows(key, cfg, i, i);
    assert(run(key, cfg, n).pool[5 + i as int] == run(key, cfg, i + 1).pool[5 + i as int]);
}

} // verus!
