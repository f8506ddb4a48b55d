use crate::circuit::{Op, Signal, Stmt};
use crate::config::CircuitConfig;
use crate::entropy::{chacha_draw, sha256_of};
use crate::generator::{
    branch_of, cache_insert, draw, footer_text, generated, header_text, initial_model, initial_pool, max_u64,
    op_of, output_signal, pow5_lines, run, step, Branch, CacheKey, GenModel,
};
use vstd::arithmetic::div_mod::lemma_mod_division_less_than_divisor;
use vstd::prelude::*;

verus! {

pub open spec fn assigns(s: Stmt, x: Signal) -> bool {
    match s {
        Stmt::Assign(t, _, _, _) => t == x,
        Stmt::Declare(_) => false,
    }
}

pub open spec fn declares(s: Stmt, x: Signal) -> bool {
    match s {
        Stmt::Declare(y) => y == x,
        Stmt::Assign(_, _, _, _) => false,
    }
}

/// Some line before position `j` assigns `x`.
pub open spec fn assigned_before(stmts: Seq<Stmt>, j: int, x: Signal) -> bool {
    exists|m: int| 0 <= m < j && #[trigger] assigns(stmts[m], x)
}

/// Some line before position `j` declares `x`.
pub open spec fn declared_before(stmts: Seq<Stmt>, j: int, x: Signal) -> bool {
    exists|m: int| 0 <= m < j && #[trigger] declares(stmts[m], x)
}

/// `x` may be read at position `j`: it is a primary input, or it was assigned
/// before.
pub open spec fn usable_before(stmts: Seq<Stmt>, j: int, x: Signal) -> bool {
    match x {
        Signal::Input(k) => k < 5,
        _ => assigned_before(stmts, j, x),
    }
}

/// Line `j` declares an intermediate signal, or assigns a declared signal from
/// usable operands.
pub open spec fn line_ok(stmts: Seq<Stmt>, j: int) -> bool {
    match stmts[j] {
        Stmt::Declare(x) => !(x is Input),
        Stmt::Assign(t, a, _, b) => declared_before(stmts, j, t) && usable_before(stmts, j, a)
            && usable_before(stmts, j, b),
    }
}

/// The body lines are well formed: every line is in order, no signal is
/// declared twice or assigned twice, and every declared signal is assigned.
pub open spec fn well_formed_lines(stmts: Seq<Stmt>) -> bool {
    &&& forall|j: int| 0 <= j < stmts.len() ==> #[trigger] line_ok(stmts, j)
    &&& forall|j1: int, j2: int, x: Signal|
        0 <= j1 < j2 < stmts.len() && #[trigger] assigns(stmts[j1], x) ==> !#[trigger] assigns(
            stmts[j2],
            x,
        )
    &&& forall|j1: int, j2: int, x: Signal|
        0 <= j1 < j2 < stmts.len() && #[trigger] declares(stmts[j1], x) ==> !#[trigger] declares(
            stmts[j2],
            x,
        )
    &&& forall|j: int, x: Signal|
        0 <= j < stmts.len() && #[trigger] declares(stmts[j], x) ==> assigned_before(
            stmts,
            stmts.len() as int,
            x,
        )
}

pub open spec fn step_index_below(x: Signal, i: nat) -> bool {
    match x {
        Signal::Input(_) => false,
        Signal::Step(s) => s < i,
        Signal::Square(s) => s < i,
        Signal::Quad(s) => s < i,
    }
}

pub open spec fn line_below(s: Stmt, i: nat) -> bool {
    match s {
        Stmt::Declare(x) => step_index_below(x, i),
        Stmt::Assign(t, _, _, _) => step_index_below(t, i),
    }
}

pub open spec fn key_usable(stmts: Seq<Stmt>, k: CacheKey) -> bool {
    match k {
        CacheKey::Pow5(x) => usable_before(stmts, stmts.len() as int, x),
        CacheKey::Arith(_, a, b) => usable_before(stmts, stmts.len() as int, a) && usable_before(
            stmts,
            stmts.len() as int,
            b,
        ),
    }
}

spec fn model_inv(g: GenModel, i: nat) -> bool {
    &&& well_formed_lines(g.stmts)
    &&& forall|j: int| 0 <= j < g.stmts.len() ==> line_below(#[trigger] g.stmts[j], i)
    &&& g.pool.len() == 5 + i
    &&& forall|j: int|
        0 <= j < g.pool.len() ==> usable_before(g.stmts, g.stmts.len() as int, #[trigger] g.pool[j].0)
    &&& forall|j: int| 0 <= j < g.cache.len() ==> key_usable(g.stmts, #[trigger] g.cache[j].0)
}

/// What was usable before position `j` stays so when lines are appended.
proof fn lemma_extend_usable(s: Seq<Stmt>, b: Seq<Stmt>, j: int, k: int, x: Signal)
    requires
        0 <= j <= s.len(),
        j <= k <= s.len() + b.len(),
        usable_before(s, j, x),
    ensures
        usable_before(s + b, k, x),
{
    if !(x is Input) {
        let m = choose|m: int| 0 <= m < j && #[trigger] assigns(s[m], x);
        assert((s + b)[m] == s[m]);
        assert(assigns((s + b)[m], x));
    }
}

proof fn lemma_cache_insert_keys(c: Seq<(CacheKey, u64)>, k: CacheKey, v: u64)
    ensures
        forall|j: int|
            0 <= j < cache_insert(c, k, v).len() ==> (#[trigger] cache_insert(c, k, v)[j]).0 == k
                || (0 <= j < c.len() && cache_insert(c, k, v)[j] == c[j]),
{
}

/// Appending block `b`, whose lines all concern step `i`, keeps the lines well
/// formed, given that each of its lines is in order and unique and that every
/// signal it declares is assigned within it.
proof fn lemma_append_block(s: Seq<Stmt>, b: Seq<Stmt>, i: nat)
    requires
        well_formed_lines(s),
        forall|j: int| 0 <= j < s.len() ==> line_below(#[trigger] s[j], i),
        forall|j: int| 0 <= j < b.len() ==> #[trigger] line_ok(s + b, s.len() + j),
        forall|j: int| 0 <= j < b.len() ==> !line_below(#[trigger] b[j], i),
        forall|j1: int, j2: int, x: Signal|
            0 <= j1 < j2 < b.len() && #[trigger] assigns(b[j1], x) ==> !#[trigger] assigns(b[j2], x),
        forall|j1: int, j2: int, x: Signal|
            0 <= j1 < j2 < b.len() && #[trigger] declares(b[j1], x) ==> !#[trigger] declares(b[j2], x),
        forall|j: int, x: Signal|
            0 <= j < b.len() && #[trigger] declares(b[j], x) ==> assigned_before(
                s + b,
                (s + b).len() as int,
                x,
            ),
        forall|j: int| 0 <= j < b.len() ==> line_below(#[trigger] b[j], i + 1),
    ensures
        well_formed_lines(s + b),
        forall|j: int| 0 <= j < (s + b).len() ==> line_below(#[trigger] (s + b)[j], i + 1),
{
    let t = s + b;
    assert forall|j: int| 0 <= j < t.len() implies #[trigger] line_ok(t, j) by {
        if j < s.len() {
            assert(line_ok(s, j));
            assert(t[j] == s[j]);
            match s[j] {
                Stmt::Declare(_) => {},
                Stmt::Assign(x, a, _, c) => {
                    let m = choose|m: int| 0 <= m < j && #[trigger] declares(s[m], x);
                    assert(t[m] == s[m]);
                    assert(declares(t[m], x));
                    lemma_extend_usable(s, b, j, j, a);
                    lemma_extend_usable(s, b, j, j, c);
                },
            }
        } else {
            assert(line_ok(t, s.len() + (j - s.len())));
        }
    }
    assert forall|j1: int, j2: int, x: Signal|
        0 <= j1 < j2 < t.len() && #[trigger] assigns(t[j1], x) implies !#[trigger] assigns(t[j2], x) by {
        if j2 < s.len() {
            assert(t[j1] == s[j1] && t[j2] == s[j2]);
        } else if j1 < s.len() {
            assert(t[j1] == s[j1] && t[j2] == b[j2 - s.len()]);
            assert(line_below(s[j1], i));
            assert(!line_below(b[j2 - s.len()], i));
        } else {
            assert(t[j1] == b[j1 - s.len()] && t[j2] == b[j2 - s.len()]);
        }
    }
    assert forall|j1: int, j2: int, x: Signal|
        0 <= j1 < j2 < t.len() && #[trigger] declares(t[j1], x) implies !#[trigger] declares(t[j2], x) by {
        if j2 < s.len() {
            assert(t[j1] == s[j1] && t[j2] == s[j2]);
        } else if j1 < s.len() {
            assert(t[j1] == s[j1] && t[j2] == b[j2 - s.len()]);
            assert(line_below(s[j1], i));
            assert(!line_below(b[j2 - s.len()], i));
        } else {
            assert(t[j1] == b[j1 - s.len()] && t[j2] == b[j2 - s.len()]);
        }
    }
    assert forall|j: int, x: Signal| 0 <= j < t.len() && #[trigger] declares(t[j], x) implies assigned_before(
        t,
        t.len() as int,
        x,
    ) by {
        if j < s.len() {
            assert(t[j] == s[j]);
            let m = choose|m: int| 0 <= m < s.len() && #[trigger] assigns(s[m], x);
            assert(t[m] == s[m]);
            assert(assigns(t[m], x));
        } else {
            assert(t[j] == b[j - s.len()]);
        }
    }
    assert forall|j: int| 0 <= j < t.len() implies line_below(#[trigger] t[j], i + 1) by {
        if j < s.len() {
            assert(t[j] == s[j]);
            assert(line_below(s[j], i));
        } else {
            assert(t[j] == b[j - s.len()]);
        }
    }
}

/// The lines of a step that emits the degree-5 gate on `x`.
pub open spec fn pow_block(x: Signal, i: u64) -> Seq<Stmt> {
    seq![Stmt::Declare(Signal::Step(i))] + pow5_lines(x, i)
}

/// The lines of a step that emits one binary operation.
pub open spec fn arith_block(a: Signal, op: Op, c: Signal, i: u64) -> Seq<Stmt> {
    seq![Stmt::Declare(Signal::Step(i)), Stmt::Assign(Signal::Step(i), a, op, c)]
}

proof fn lemma_pow_block(s: Seq<Stmt>, x: Signal, i: u64)
    requires
        well_formed_lines(s),
        forall|j: int| 0 <= j < s.len() ==> line_below(#[trigger] s[j], i as nat),
        usable_before(s, s.len() as int, x),
    ensures
        well_formed_lines(s + pow_block(x, i)),
        forall|j: int|
            0 <= j < (s + pow_block(x, i)).len() ==> line_below(
                #[trigger] (s + pow_block(x, i))[j],
                (i + 1) as nat,
            ),
        usable_before(s + pow_block(x, i), (s + pow_block(x, i)).len() as int, Signal::Step(i)),
{
    let b = pow_block(x, i);
    let t = s + b;
    let n = s.len() as int;
    let (st, sq, qd) = (Signal::Step(i), Signal::Square(i), Signal::Quad(i));
    assert(b[0] == Stmt::Declare(st));
    assert(b[1] == Stmt::Declare(sq));
    assert(b[2] == Stmt::Assign(sq, x, Op::Mul, x));
    assert(b[3] == Stmt::Declare(qd));
    assert(b[4] == Stmt::Assign(qd, sq, Op::Mul, sq));
    assert(b[5] == Stmt::Assign(st, qd, Op::Mul, x));
    assert(b.len() == 6);
    assert(t[n] == b[0] && t[n + 1] == b[1] && t[n + 2] == b[2]);
    assert(t[n + 3] == b[3] && t[n + 4] == b[4] && t[n + 5] == b[5]);
    assert(declares(t[n], st) && declares(t[n + 1], sq) && declares(t[n + 3], qd));
    assert(assigns(t[n + 2], sq) && assigns(t[n + 4], qd) && assigns(t[n + 5], st));
    lemma_extend_usable(s, b, n, n + 2, x);
    lemma_extend_usable(s, b, n, n + 5, x);
    assert forall|j: int| 0 <= j < b.len() implies #[trigger] line_ok(t, n + j) by {
        if j == 2 {
            assert(declared_before(t, n + 2, sq));
        } else if j == 4 {
            assert(declared_before(t, n + 4, qd));
            assert(assigned_before(t, n + 4, sq));
        } else if j == 5 {
            assert(declared_before(t, n + 5, st));
            assert(assigned_before(t, n + 5, qd));
        }
    }
    assert forall|j: int, y: Signal| 0 <= j < b.len() && #[trigger] declares(b[j], y) implies assigned_before(
        t,
        t.len() as int,
        y,
    ) by {
        if j == 0 {
            assert(assigns(t[n + 5], y));
        } else if j == 1 {
            assert(assigns(t[n + 2], y));
        } else {
            assert(assigns(t[n + 4], y));
        }
    }
    lemma_append_block(s, b, i as nat);
    assert(assigned_before(t, t.len() as int, st));
}

proof fn lemma_arith_block(s: Seq<Stmt>, a: Signal, op: Op, c: Signal, i: u64)
    requires
        well_formed_lines(s),
        forall|j: int| 0 <= j < s.len() ==> line_below(#[trigger] s[j], i as nat),
        usable_before(s, s.len() as int, a),
        usable_before(s, s.len() as int, c),
    ensures
        well_formed_lines(s + arith_block(a, op, c, i)),
        forall|j: int|
            0 <= j < (s + arith_block(a, op, c, i)).len() ==> line_below(
                #[trigger] (s + arith_block(a, op, c, i))[j],
                (i + 1) as nat,
            ),
        usable_before(
            s + arith_block(a, op, c, i),
            (s + arith_block(a, op, c, i)).len() as int,
            Signal::Step(i),
        ),
{
    let b = arith_block(a, op, c, i);
    let t = s + b;
    let n = s.len() as int;
    let st = Signal::Step(i);
    assert(b[0] == Stmt::Declare(st));
    assert(b[1] == Stmt::Assign(st, a, op, c));
    assert(t[n] == b[0] && t[n + 1] == b[1]);
    assert(declares(t[n], st) && assigns(t[n + 1], st));
    lemma_extend_usable(s, b, n, n + 1, a);
    lemma_extend_usable(s, b, n, n + 1, c);
    assert forall|j: int| 0 <= j < b.len() implies #[trigger] line_ok(t, n + j) by {
        if j == 1 {
            assert(declared_before(t, n + 1, st));
        }
    }
    assert forall|j: int, y: Signal| 0 <= j < b.len() && #[trigger] declares(b[j], y) implies assigned_before(
        t,
        t.len() as int,
        y,
    ) by {
        assert(assigns(t[n + 1], y));
    }
    lemma_append_block(s, b, i as nat);
    assert(assigned_before(t, t.len() as int, st));
}

proof fn lemma_carry(
    s: Seq<Stmt>,
    b: Seq<Stmt>,
    pool: Seq<(Signal, u64)>,
    cache: Seq<(CacheKey, u64)>,
)
    requires
        forall|j: int| 0 <= j < pool.len() ==> usable_before(s, s.len() as int, #[trigger] pool[j].0),
        forall|j: int| 0 <= j < cache.len() ==> key_usable(s, #[trigger] cache[j].0),
    ensures
        forall|j: int|
            0 <= j < pool.len() ==> usable_before(s + b, (s + b).len() as int, #[trigger] pool[j].0),
        forall|j: int| 0 <= j < cache.len() ==> key_usable(s + b, #[trigger] cache[j].0),
{
    let t = s + b;
    let n = s.len() as int;
    assert forall|j: int| 0 <= j < pool.len() implies usable_before(
        t,
        t.len() as int,
        #[trigger] pool[j].0,
    ) by {
        lemma_extend_usable(s, b, n, t.len() as int, pool[j].0);
    }
    assert forall|j: int| 0 <= j < cache.len() implies key_usable(t, #[trigger] cache[j].0) by {
        assert(key_usable(s, cache[j].0));
        match cache[j].0 {
            CacheKey::Pow5(x) => lemma_extend_usable(s, b, n, t.len() as int, x),
            CacheKey::Arith(_, x, y) => {
                lemma_extend_usable(s, b, n, t.len() as int, x);
                lemma_extend_usable(s, b, n, t.len() as int, y);
            },
        }
    }
}

proof fn lemma_step_inv(key: Seq<u8>, cfg: CircuitConfig, g: GenModel, i: nat)
    requires
        model_inv(g, i),
        i <= u64::MAX,
    ensures
        model_inv(step(key, cfg, g, i), i + 1),
{
    let s = i as u64;
    let r = step(key, cfg, g, i);
    let plen = g.pool.len() as int;
    let pick = |slot: nat, bound: nat|
        chacha_draw_int(key, i, slot, bound);
    match branch_of(key, cfg, g, i) {
        Branch::Redundant => {
            let c = g.cache.len() as int;
            lemma_mod_division_less_than_divisor(pick(1, c as nat), c);
            let k = g.cache[draw(key, i, 1, g.cache.len()) as int].0;
            assert(key_usable(g.stmts, k));
            let b = match k {
                CacheKey::Pow5(x) => {
                    lemma_pow_block(g.stmts, x, s);
                    pow_block(x, s)
                },
                CacheKey::Arith(op, x, y) => {
                    lemma_arith_block(g.stmts, x, op, y, s);
                    arith_block(x, op, y, s)
                },
            };
            assert(r.stmts =~= g.stmts + b);
            lemma_carry(g.stmts, b, g.pool, g.cache);
            assert(r.pool.len() == plen + 1);
            assert forall|j: int| 0 <= j < r.pool.len() implies usable_before(
                r.stmts,
                r.stmts.len() as int,
                #[trigger] r.pool[j].0,
            ) by {
                if j < plen {
                    assert(r.pool[j] == g.pool[j]);
                }
            }
        },
        Branch::PowerMap => {
            lemma_mod_division_less_than_divisor(pick(1, plen as nat), plen);
            let x = g.pool[draw(key, i, 1, g.pool.len()) as int];
            let b = pow_block(x.0, s);
            lemma_pow_block(g.stmts, x.0, s);
            assert(r.stmts =~= g.stmts + b);
            lemma_carry(g.stmts, b, g.pool, g.cache);
            assert forall|j: int| 0 <= j < r.pool.len() implies usable_before(
                r.stmts,
                r.stmts.len() as int,
                #[trigger] r.pool[j].0,
            ) by {
                if j < plen {
                    assert(r.pool[j] == g.pool[j]);
                }
            }
            lemma_cache_insert_keys(g.cache, CacheKey::Pow5(x.0), s);
            lemma_extend_usable(g.stmts, b, g.stmts.len() as int, r.stmts.len() as int, x.0);
            assert forall|j: int| 0 <= j < r.cache.len() implies key_usable(
                r.stmts,
                #[trigger] r.cache[j].0,
            ) by {
                if r.cache[j].0 != CacheKey::Pow5(x.0) {
                    assert(r.cache[j] == g.cache[j]);
                }
            }
        },
        Branch::Fresh => {
            lemma_mod_division_less_than_divisor(pick(2, plen as nat), plen);
            lemma_mod_division_less_than_divisor(pick(3, plen as nat), plen);
            let op = op_of(draw(key, i, 1, 2));
            let a = g.pool[draw(key, i, 2, g.pool.len()) as int];
            let c = g.pool[draw(key, i, 3, g.pool.len()) as int];
            let depth = (max_u64(a.1, c.1) + 1) as u64;
            let clamp = depth > cfg.max_depth;
            let x = if clamp { Signal::Input(0) } else { a.0 };
            let y = if clamp { Signal::Input(1) } else { c.0 };
            let b = arith_block(x, op, y, s);
            lemma_arith_block(g.stmts, x, op, y, s);
            assert(r.stmts =~= g.stmts + b);
            lemma_carry(g.stmts, b, g.pool, g.cache);
            assert forall|j: int| 0 <= j < r.pool.len() implies usable_before(
                r.stmts,
                r.stmts.len() as int,
                #[trigger] r.pool[j].0,
            ) by {
                if j < plen {
                    assert(r.pool[j] == g.pool[j]);
                }
            }
            lemma_cache_insert_keys(g.cache, CacheKey::Arith(op, x, y), s);
            lemma_extend_usable(g.stmts, b, g.stmts.len() as int, r.stmts.len() as int, x);
            lemma_extend_usable(g.stmts, b, g.stmts.len() as int, r.stmts.len() as int, y);
            assert forall|j: int| 0 <= j < r.cache.len() implies key_usable(
                r.stmts,
                #[trigger] r.cache[j].0,
            ) by {
                if r.cache[j].0 != CacheKey::Arith(op, x, y) {
                    assert(r.cache[j] == g.cache[j]);
                }
            }
        },
    }
}

spec fn chacha_draw_int(key: Seq<u8>, i: nat, slot: nat, bound: nat) -> int {
    chacha_draw(key, (4 * i + slot) as u64, bound as u64) as int
}

proof fn lemma_run_inv(key: Seq<u8>, cfg: CircuitConfig, n: nat)
    requires
        n <= u64::MAX,
    ensures
        model_inv(run(key, cfg, n), n),
    decreases n,
{
    if n == 0 {
        let g = initial_model();
        assert forall|j: int| 0 <= j < g.pool.len() implies usable_before(
            g.stmts,
            g.stmts.len() as int,
            #[trigger] g.pool[j].0,
        ) by {
            assert(g.pool[j] == initial_pool()[j]);
        }
    } else {
        lemma_run_inv(key, cfg, (n - 1) as nat);
        lemma_step_inv(key, cfg, run(key, cfg, (n - 1) as nat), (n - 1) as nat);
    }
}

/// Structural well-formedness: the body of every generated program declares
/// no signal twice and assigns none twice, assigns each declared signal, and
/// in each assignment the target was declared before and every operand is a
/// primary input `in[0]` to `in[4]` or was assigned before. With at least one
/// step the last line assigns the last step's result, which the output is
/// wired to; the text opens with the fixed header, which declares the five
/// inputs and the one output.
pub proof fn lemma_structure(seed: Seq<char>, cfg: CircuitConfig)
    ensures
        well_formed_lines(run(sha256_of(seed), cfg, cfg.num_constraints as nat).stmts),
        generated(seed, cfg).subrange(0, header_text().len() as int) == header_text(),
        cfg.num_constraints >= 1 ==> ({
            let stmts = run(sha256_of(seed), cfg, cfg.num_constraints as nat).stmts;
            &&& stmts.len() >= 1
            &&& stmts.last() is Assign
            &&& assigns(stmts.last(), output_signal(cfg))
        }),
{
    let key = sha256_of(seed);
    let n = cfg.num_constraints as nat;
    lemma_run_inv(key, cfg, n);
    let body = crate::circuit::body_text(run(key, cfg, n).stmts);
    assert(generated(seed, cfg) == header_text() + body + footer_text(cfg));
    assert(generated(seed, cfg).subrange(0, header_text().len() as int) =~= header_text());
    if n >= 1 {
        let g = run(key, cfg, (n - 1) as nat);
        let s = (n - 1) as u64;
        let r = run(key, cfg, n);
        match branch_of(key, cfg, g, (n - 1) as nat) {
            Branch::Redundant => {
                let k = g.cache[draw(key, (n - 1) as nat, 1, g.cache.len()) as int].0;
                match k {
                    CacheKey::Pow5(x) => assert(r.stmts.last() == pow5_lines(x, s).last()),
                    CacheKey::Arith(op, a, b) => {},
                }
            },
            Branch::PowerMap => {
                let x = g.pool[draw(key, (n - 1) as nat, 1, g.pool.len()) as int];
                assert(r.stmts.last() == pow5_lines(x.0, s).last());
            },
            Branch::Fresh => {},
        }
    }
}

} // verus!
