use vstd::prelude::*;

verus! {

/// A signal of the emitted circuit.
#[derive(Debug, Clone, Copy, PartialEq, Eq, Structural)]
pub enum Signal {
    /// Primary input `in[k]`.
    Input(u64),
    /// The result `s_i` of step `i`.
    Step(u64),
    /// The square `s_i_sq` computed by the degree-5 gate of step `i`.
    Square(u64),
    /// The fourth power `s_i_quad` computed by the degree-5 gate of step `i`.
    Quad(u64),
}

/// A binary operator of a constraint.
#[derive(Debug, Clone, Copy, PartialEq, Eq, Structural)]
pub enum Op {
    Mul,
    Add,
}

/// One line of the template's body.
#[derive(Debug, Clone, Copy, PartialEq, Eq, Structural)]
pub enum Stmt {
    /// `signal <name>;`
    Declare(Signal),
    /// `<target> <== <lhs> <op> <rhs>;`
    Assign(Signal, Signal, Op, Signal),
}

pub open spec fn digit_text(d: nat) -> Seq<char> {
    if d == 0 {
        "0"@
    } else if d == 1 {
        "1"@
    } else if d == 2 {
        "2"@
    } else if d == 3 {
        "3"@
    } else if d == 4 {
        "4"@
    } else if d == 5 {
        "5"@
    } else if d == 6 {
        "6"@
    } else if d == 7 {
        "7"@
    } else if d == 8 {
        "8"@
    } else {
        "9"@
    }
}

/// The decimal digits of `n`, without leading zeros.
pub open spec fn decimal(n: nat) -> Seq<char>
    decreases n,
{
    if n < 10 {
        digit_text(n)
    } else {
        decimal(n / 10) + digit_text(n % 10)
    }
}

pub open spec fn signal_name(s: Signal) -> Seq<char> {
    match s {
        Signal::Input(k) => "in["@ + decimal(k as nat) + "]"@,
        Signal::Step(i) => "s_"@ + decimal(i as nat),
        Signal::Square(i) => "s_"@ + decimal(i as nat) + "_sq"@,
        Signal::Quad(i) => "s_"@ + decimal(i as nat) + "_quad"@,
    }
}

pub open spec fn op_text(op: Op) -> Seq<char> {
    match op {
        Op::Mul => "*"@,
        Op::Add => "+"@,
    }
}

pub open spec fn stmt_text(s: Stmt) -> Seq<char> {
    match s {
        Stmt::Declare(x) => "    signal "@ + signal_name(x) + ";\n"@,
        Stmt::Assign(t, a, op, b) => "    "@ + signal_name(t) + " <== "@ + signal_name(a) + " "@
            + op_text(op) + " "@ + signal_name(b) + ";\n"@,
    }
}

/// The text of a sequence of body lines, in order.
pub open spec fn body_text(stmts: Seq<Stmt>) -> Seq<char>
    decreases stmts.len(),
{
    if stmts.len() == 0 {
        Seq::empty()
    } else {
        body_text(stmts.drop_last()) + stmt_text(stmts.last())
    }
}

fn digit_str(d: u64) -> (r: &'static str)
    requires
        d < 10,
    ensures
        r@ == digit_text(d as nat),
{
    if d == 0 {
        "0"
    } else if d == 1 {
        "1"
    } else if d == 2 {
        "2"
    } else if d == 3 {
        "3"
    } else if d == 4 {
        "4"
    } else if d == 5 {
        "5"
    } else if d == 6 {
        "6"
    } else if d == 7 {
        "7"
    } else if d == 8 {
        "8"
    } else {
        "9"
    }
}

pub(crate) fn push_decimal(out: &mut String, n: u64)
    ensures
        final(out)@ == old(out)@ + decimal(n as nat),
    decreases n,
{
    if n >= 10 {
        push_decimal(out, n / 10);
    }
    out.append(digit_str(n % 10));
    assert(n >= 10 ==> decimal(n as nat) == decimal((n / 10) as nat) + digit_text((n % 10) as nat));
}

pub(crate) fn push_signal(out: &mut String, s: Signal)
    ensures
        final(out)@ == old(out)@ + signal_name(s),
{
    match s {
        Signal::Input(k) => {
            out.append("in[");
            push_decimal(out, k);
            out.append("]");
        },
        Signal::Step(i) => {
            out.append("s_");
            push_decimal(out, i);
        },
        Signal::Square(i) => {
            out.append("s_");
            push_decimal(out, i);
            out.append("_sq");
        },
        Signal::Quad(i) => {
            out.append("s_");
            push_decimal(out, i);
            out.append("_quad");
        },
    }
    assert(final(out)@ =~= old(out)@ + signal_name(s));
}

fn push_stmt(out: &mut String, s: Stmt)
    ensures
        final(out)@ == old(out)@ + stmt_text(s),
{
    match s {
        Stmt::Declare(x) => {
            out.append("    signal ");
            push_signal(out, x);
            out.append(";\n");
        },
        Stmt::Assign(t, a, op, b) => {
            out.append("    ");
            push_signal(out, t);
            out.append(" <== ");
            push_signal(out, a);
            out.append(" ");
            match op {
                Op::Mul => out.append("*"),
                Op::Add => out.append("+"),
            }
            out.append(" ");
            push_signal(out, b);
            out.append(";\n");
        },
    }
    assert(final(out)@ =~= old(out)@ + stmt_text(s));
}

/// Appends the text of every line of `stmts`, in order.
pub fn push_body(out: &mut String, stmts: &Vec<Stmt>)
    ensures
        final(out)@ == old(out)@ + body_text(stmts@),
{
    let ghost start = out@;
    let mut i: usize = 0;
    while i < stmts.len()
        invariant
            i <= stmts@.len(),
            out@ == start + body_text(stmts@.subrange(0, i as int)),
        decreases stmts@.len() - i,
    {
        let ghost before = out@;
        push_stmt(out, stmts[i]);
        proof {
            let next = stmts@.subrange(0, i + 1);
            assert(next.drop_last() =~= stmts@.subrange(0, i as int));
            assert(out@ =~= start + body_text(next));
        }
        i = i + 1;
    }
    assert(stmts@.subrange(0, stmts@.len() as int) =~= stmts@);
}

} // verus!
