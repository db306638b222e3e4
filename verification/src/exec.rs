//! The execution engine: consumes typed instructions in order against an
//! interpreter context of operand stack, memory region, symbol table and
//! accumulated output, halting on the first failure.
//!
//! The mathematical model is `StateV`, and one instruction's effect is the
//! spec function `step`; a whole stream's effect is `run_steps`. The
//! executable engine is proved to follow them exactly.

use vstd::prelude::*;
use vstd::string::StringExecFns;
use vstd::math::abs;
use vstd::wrapping::i32_specs;

use crate::data::Data;
use crate::render::{debug_text, display_text, push_debug, push_display};
use crate::stack::Stack;
use crate::token::{Func, Reserved, Token, TokenV, ReservedV};

verus! {

/// Failure of one instruction; the run halts on the first one.
#[derive(Debug)]
pub enum ExecutionError {
    EmptyStack,
    ImproperArgument,
    DivideByZero,
    InvalidWord(String),
    InvalidMemory,
}

/// The mathematical model of an `ExecutionError`.
pub enum ErrV {
    EmptyStack,
    ImproperArgument,
    DivideByZero,
    InvalidWord(Seq<char>),
    InvalidMemory,
}

impl View for ExecutionError {
    type V = ErrV;

    open spec fn view(&self) -> ErrV {
        match self {
            ExecutionError::EmptyStack => ErrV::EmptyStack,
            ExecutionError::ImproperArgument => ErrV::ImproperArgument,
            ExecutionError::DivideByZero => ErrV::DivideByZero,
            ExecutionError::InvalidWord(w) => ErrV::InvalidWord(w@),
            ExecutionError::InvalidMemory => ErrV::InvalidMemory,
        }
    }
}

/// The human-readable text of an execution failure.
pub open spec fn error_text(e: ErrV) -> Seq<char> {
    match e {
        ErrV::EmptyStack => "Empty stack error"@,
        ErrV::DivideByZero => "Attempt to divide by zero"@,
        ErrV::ImproperArgument => "Improper arguments provided"@,
        ErrV::InvalidWord(w) => "Invalid word: "@ + w,
        ErrV::InvalidMemory => "Memory location is invalid"@,
    }
}

impl ExecutionError {
    /// The message named by `error_text`, ready to print.
    pub fn message(&self) -> (r: String)
        ensures
            r@ == error_text(self@),
    {
        let mut out = String::new();
        match self {
            ExecutionError::EmptyStack => {
                out.append("Empty stack error");
            },
            ExecutionError::DivideByZero => {
                out.append("Attempt to divide by zero");
            },
            ExecutionError::ImproperArgument => {
                out.append("Improper arguments provided");
            },
            ExecutionError::InvalidWord(w) => {
                out.append("Invalid word: ");
                out.append(w.as_str());
            },
            ExecutionError::InvalidMemory => {
                out.append("Memory location is invalid");
            },
        }
        proof {
            assert(out@ =~= error_text(self@));
        }
        out
    }
}

/// A bound name in the symbol table: either a deferred word body, or a
/// plain data binding (a constant's value, or a variable's address).
/// Deferred word bodies are part of the data model but have no executing
/// interpretation here: a well-formed table never holds one.
#[derive(Debug)]
pub enum Word {
    Word(Vec<Token>),
    Data(Data),
}

/// The mathematical model of a bound name.
pub enum WordV {
    Word(Seq<TokenV>),
    Data(Data),
}

impl View for Word {
    type V = WordV;

    open spec fn view(&self) -> WordV {
        match self {
            Word::Word(ts) => WordV::Word(ts@.map_values(|t: Token| t@)),
            Word::Data(d) => WordV::Data(*d),
        }
    }
}

/// The mathematical model of the interpreter context: stack bottom to top,
/// memory cells by address, symbol table in insertion order, and the text
/// written to the output stream so far.
#[verifier::ext_equal]
pub struct StateV {
    pub stack: Seq<Data>,
    pub memory: Seq<Option<Data>>,
    pub words: Seq<(Seq<char>, WordV)>,
    pub output: Seq<char>,
}

/// The interpreter context: operand stack, memory region, symbol table,
/// and accumulated output, each created once per run.
#[derive(Debug)]
pub struct Interp {
    pub stack: Vec<Data>,
    pub memory: Vec<Option<Data>>,
    pub words: Vec<(String, Word)>,
    pub output: String,
}

/// The model of an executable symbol table.
pub open spec fn words_view(ws: Vec<(String, Word)>) -> Seq<(Seq<char>, WordV)> {
    ws@.map_values(|p: (String, Word)| (p.0@, p.1@))
}

impl View for Interp {
    type V = StateV;

    open spec fn view(&self) -> StateV {
        StateV {
            stack: self.stack@,
            memory: self.memory@,
            words: words_view(self.words),
            output: self.output@,
        }
    }
}

/// The state a fresh interpreter starts in: everything empty.
pub open spec fn init_state() -> StateV {
    StateV {
        stack: Seq::<Data>::empty(),
        memory: Seq::<Option<Data>>::empty(),
        words: Seq::<(Seq<char>, WordV)>::empty(),
        output: Seq::<char>::empty(),
    }
}

/// The binding of `name`, scanning the table in order.
pub open spec fn lookup_spec(ws: Seq<(Seq<char>, WordV)>, name: Seq<char>) -> Option<WordV>
    decreases ws.len(),
{
    if ws.len() == 0 {
        None
    } else if ws[0].0 == name {
        Some(ws[0].1)
    } else {
        lookup_spec(ws.drop_first(), name)
    }
}

/// The table with `name` bound to `w`: the existing entry replaced in
/// place, or a new entry appended.
pub open spec fn insert_spec(
    ws: Seq<(Seq<char>, WordV)>,
    name: Seq<char>,
    w: WordV,
) -> Seq<(Seq<char>, WordV)>
    decreases ws.len(),
{
    if ws.len() == 0 {
        seq![(name, w)]
    } else if ws[0].0 == name {
        seq![(name, w)] + ws.drop_first()
    } else {
        seq![ws[0]] + insert_spec(ws.drop_first(), name, w)
    }
}

/// A well-formed symbol table: keys unique, and every binding a plain
/// data binding (no deferred word bodies).
pub open spec fn wf_words(ws: Seq<(Seq<char>, WordV)>) -> bool {
    &&& forall|i: int| 0 <= i < ws.len() ==> (#[trigger] ws[i].1) is Data
    &&& forall|i: int, j: int|
        0 <= i < j < ws.len() ==> (#[trigger] ws[i].0) != (#[trigger] ws[j].0)
}

/// A well-formed interpreter state.
pub open spec fn wf_state(s: StateV) -> bool {
    wf_words(s.words)
}

/// Whether the engine defines an effect for `t`: every instruction but
/// read-input, which is declared yet left unspecified.
pub open spec fn token_supported(t: TokenV) -> bool {
    t != TokenV::Func(Func::Input)
}

/// The models of a sequence of instructions.
pub open spec fn tokens_view(ts: Seq<Token>) -> Seq<TokenV> {
    ts.map_values(|t: Token| t@)
}

/// Whether every instruction of the sequence has a defined effect.
pub open spec fn tokens_supported(ts: Seq<TokenV>) -> bool {
    forall|i: int| 0 <= i < ts.len() ==> token_supported(#[trigger] ts[i])
}

/// The integer result of an arithmetic operator: `y` combined with `x`,
/// where `x` was on top of the stack and `y` below it.
pub open spec fn arith_result(f: Func, y: int, x: int) -> int
    recommends
        f == Func::Add || f == Func::Sub || f == Func::Mul,
{
    if f == Func::Add {
        y + x
    } else if f == Func::Sub {
        y - x
    } else {
        y * x
    }
}

/// Truncating integer division: the quotient rounded toward zero.
pub open spec fn div_trunc(y: int, x: int) -> int
    recommends
        x != 0,
{
    if (y >= 0) == (x >= 0) {
        (abs(y) / abs(x)) as int
    } else {
        -((abs(y) / abs(x)) as int)
    }
}

/// The address a variable declared at memory length `len` is bound to:
/// the length read as a signed 32-bit value.
pub open spec fn addr_at(len: nat) -> i32 {
    i32_specs::signed_crop(len as int)
}

/// The effect of one operator instruction on the state.
pub open spec fn step_func(s: StateV, f: Func) -> Result<StateV, ErrV> {
    match f {
        Func::Add | Func::Sub | Func::Mul => if s.stack.len() < 2 {
            Err(ErrV::EmptyStack)
        } else {
            match (s.stack[s.stack.len() - 1], s.stack[s.stack.len() - 2]) {
                (Data::Int(x), Data::Int(y)) => Ok(
                    StateV {
                        stack: s.stack.drop_last().drop_last().push(
                            Data::Int(i32_specs::signed_crop(arith_result(f, y as int, x as int))),
                        ),
                        ..s
                    },
                ),
                _ => Err(ErrV::ImproperArgument),
            }
        },
        Func::Div => if s.stack.len() < 2 {
            Err(ErrV::EmptyStack)
        } else {
            match (s.stack[s.stack.len() - 1], s.stack[s.stack.len() - 2]) {
                (Data::Int(x), Data::Int(y)) => if x == 0 {
                    Err(ErrV::DivideByZero)
                } else {
                    Ok(
                        StateV {
                            stack: s.stack.drop_last().drop_last().push(
                                Data::Int(i32_specs::signed_crop(div_trunc(y as int, x as int))),
                            ),
                            ..s
                        },
                    )
                },
                _ => Err(ErrV::ImproperArgument),
            }
        },
        Func::Print => if s.stack.len() == 0 {
            Err(ErrV::EmptyStack)
        } else {
            Ok(
                StateV {
                    stack: s.stack.drop_last(),
                    output: s.output + display_text(s.stack.last()),
                    ..s
                },
            )
        },
        Func::Input => arbitrary(),
        Func::DPrint => if s.stack.len() == 0 {
            Err(ErrV::EmptyStack)
        } else {
            Ok(
                StateV {
                    stack: s.stack.drop_last(),
                    output: s.output + debug_text(s.stack.last()) + "\n"@,
                    ..s
                },
            )
        },
        Func::Dup => if s.stack.len() == 0 {
            Err(ErrV::EmptyStack)
        } else {
            Ok(StateV { stack: s.stack.push(s.stack.last()), ..s })
        },
        Func::Swap => if s.stack.len() < 2 {
            Err(ErrV::EmptyStack)
        } else {
            Ok(
                StateV {
                    stack: s.stack.drop_last().drop_last().push(s.stack.last()).push(
                        s.stack[s.stack.len() - 2],
                    ),
                    ..s
                },
            )
        },
        Func::Over => if s.stack.len() < 2 {
            Err(ErrV::EmptyStack)
        } else {
            Ok(StateV { stack: s.stack.push(s.stack[s.stack.len() - 2]), ..s })
        },
        Func::Rotate => if s.stack.len() < 3 {
            Err(ErrV::EmptyStack)
        } else {
            Ok(
                StateV {
                    stack: s.stack.drop_last().drop_last().drop_last().push(
                        s.stack[s.stack.len() - 2],
                    ).push(s.stack[s.stack.len() - 1]).push(s.stack[s.stack.len() - 3]),
                    ..s
                },
            )
        },
        Func::Store => if s.stack.len() < 2 {
            Err(ErrV::ImproperArgument)
        } else {
            match s.stack[s.stack.len() - 1] {
                Data::Int(loc) => if 0 <= loc && (loc as int) < s.memory.len() {
                    Ok(
                        StateV {
                            stack: s.stack.drop_last().drop_last(),
                            memory: s.memory.update(
                                loc as int,
                                Some(s.stack[s.stack.len() - 2]),
                            ),
                            ..s
                        },
                    )
                } else {
                    Err(ErrV::ImproperArgument)
                },
                _ => Err(ErrV::ImproperArgument),
            }
        },
        Func::Retrieve => if s.stack.len() == 0 {
            Err(ErrV::ImproperArgument)
        } else {
            match s.stack[s.stack.len() - 1] {
                Data::Int(loc) => if 0 <= loc && (loc as int) < s.memory.len() {
                    match s.memory[loc as int] {
                        Some(d) => Ok(StateV { stack: s.stack.drop_last().push(d), ..s }),
                        None => Err(ErrV::InvalidMemory),
                    }
                } else {
                    Err(ErrV::InvalidMemory)
                },
                _ => Err(ErrV::ImproperArgument),
            }
        },
    }
}

/// The effect of one reserved-keyword declaration on the state.
pub open spec fn step_reserved(s: StateV, r: ReservedV) -> Result<StateV, ErrV> {
    match r {
        ReservedV::Variable(name) => Ok(
            StateV {
                memory: s.memory.push(None),
                words: insert_spec(
                    s.words,
                    name,
                    WordV::Data(Data::Int(addr_at(s.memory.len()))),
                ),
                ..s
            },
        ),
        ReservedV::Constant(name) => if s.stack.len() == 0 {
            Err(ErrV::EmptyStack)
        } else {
            Ok(
                StateV {
                    stack: s.stack.drop_last(),
                    words: insert_spec(s.words, name, WordV::Data(s.stack.last())),
                    ..s
                },
            )
        },
    }
}

/// The effect of one instruction on the state: the new state, or the
/// failure the run halts with.
pub open spec fn step(s: StateV, t: TokenV) -> Result<StateV, ErrV> {
    match t {
        TokenV::Int(x) => Ok(StateV { stack: s.stack.push(Data::Int(x)), ..s }),
        TokenV::Char(c) => Ok(StateV { stack: s.stack.push(Data::Char(c)), ..s }),
        TokenV::Func(f) => step_func(s, f),
        TokenV::Reserved(r) => step_reserved(s, r),
        TokenV::Keyword(name) => match lookup_spec(s.words, name) {
            Some(WordV::Data(d)) => Ok(StateV { stack: s.stack.push(d), ..s }),
            Some(WordV::Word(_)) => arbitrary(),
            None => Err(ErrV::InvalidWord(name)),
        },
    }
}

/// The effect of a whole instruction stream: the final state, or the
/// state before the failing instruction together with its failure.
pub open spec fn run_steps(s: StateV, ts: Seq<TokenV>) -> Result<StateV, (StateV, ErrV)>
    decreases ts.len(),
{
    if ts.len() == 0 {
        Ok(s)
    } else {
        match step(s, ts[0]) {
            Ok(s2) => run_steps(s2, ts.drop_first()),
            Err(e) => Err((s, e)),
        }
    }
}

/// A table whose first `i` keys differ from `name` binds `name` at entry
/// `i` if that entry's key matches.
proof fn lemma_lookup_at(ws: Seq<(Seq<char>, WordV)>, name: Seq<char>, i: int)
    requires
        0 <= i < ws.len(),
        ws[i].0 == name,
        forall|j: int| 0 <= j < i ==> (#[trigger] ws[j].0) != name,
    ensures
        lookup_spec(ws, name) == Some(ws[i].1),
    decreases i,
{
    if i > 0 {
        assert(ws.drop_first()[i - 1] == ws[i]);
        assert(forall|j: int| 0 <= j < i - 1 ==> (#[trigger] ws.drop_first()[j].0) != name);
        lemma_lookup_at(ws.drop_first(), name, i - 1);
    }
}

/// A table none of whose keys is `name` does not bind it.
proof fn lemma_lookup_none(ws: Seq<(Seq<char>, WordV)>, name: Seq<char>)
    requires
        forall|j: int| 0 <= j < ws.len() ==> (#[trigger] ws[j].0) != name,
    ensures
        lookup_spec(ws, name) is None,
    decreases ws.len(),
{
    if ws.len() > 0 {
        assert(forall|j: int|
            0 <= j < ws.len() - 1 ==> (#[trigger] ws.drop_first()[j].0) != name);
        lemma_lookup_none(ws.drop_first(), name);
    }
}

/// In a well-formed table every binding is a data binding.
proof fn lemma_lookup_wf(ws: Seq<(Seq<char>, WordV)>, name: Seq<char>)
    requires
        forall|i: int| 0 <= i < ws.len() ==> (#[trigger] ws[i].1) is Data,
        lookup_spec(ws, name) is Some,
    ensures
        lookup_spec(ws, name)->Some_0 is Data,
    decreases ws.len(),
{
    if ws.len() > 0 && ws[0].0 != name {
        assert(forall|i: int|
            0 <= i < ws.len() - 1 ==> (#[trigger] ws.drop_first()[i].1) is Data);
        lemma_lookup_wf(ws.drop_first(), name);
    }
}

/// Replacing the first matching entry is what `insert_spec` means when a
/// match exists at `i` and none before it.
proof fn lemma_insert_at(ws: Seq<(Seq<char>, WordV)>, name: Seq<char>, w: WordV, i: int)
    requires
        0 <= i < ws.len(),
        ws[i].0 == name,
        forall|j: int| 0 <= j < i ==> (#[trigger] ws[j].0) != name,
    ensures
        insert_spec(ws, name, w) =~= ws.update(i, (name, w)),
    decreases i,
{
    if i == 0 {
        assert(seq![(name, w)] + ws.drop_first() =~= ws.update(0, (name, w)));
    } else {
        assert(ws.drop_first()[i - 1] == ws[i]);
        assert(forall|j: int| 0 <= j < i - 1 ==> (#[trigger] ws.drop_first()[j].0) != name);
        lemma_insert_at(ws.drop_first(), name, w, i - 1);
        assert(seq![ws[0]] + ws.drop_first().update(i - 1, (name, w)) =~= ws.update(
            i,
            (name, w),
        ));
    }
}

/// Appending a fresh entry is what `insert_spec` means when no key
/// matches.
proof fn lemma_insert_append(ws: Seq<(Seq<char>, WordV)>, name: Seq<char>, w: WordV)
    requires
        forall|j: int| 0 <= j < ws.len() ==> (#[trigger] ws[j].0) != name,
    ensures
        insert_spec(ws, name, w) =~= ws.push((name, w)),
    decreases ws.len(),
{
    if ws.len() == 0 {
        assert(seq![(name, w)] =~= ws.push((name, w)));
    } else {
        assert(forall|j: int|
            0 <= j < ws.len() - 1 ==> (#[trigger] ws.drop_first()[j].0) != name);
        lemma_insert_append(ws.drop_first(), name, w);
        assert(seq![ws[0]] + ws.drop_first().push((name, w)) =~= ws.push((name, w)));
    }
}

/// Binding `name` leaves every other lookup untouched.
proof fn lemma_insert_lookup_other(
    ws: Seq<(Seq<char>, WordV)>,
    name: Seq<char>,
    w: WordV,
    other: Seq<char>,
)
    requires
        other != name,
    ensures
        lookup_spec(insert_spec(ws, name, w), other) == lookup_spec(ws, other),
    decreases ws.len(),
{
    if ws.len() == 0 {
        assert(seq![(name, w)].drop_first() =~= ws);
    } else if ws[0].0 == name {
        let r = seq![(name, w)] + ws.drop_first();
        assert(r[0].0 == name);
        assert(r.drop_first() =~= ws.drop_first());
    } else {
        let r = seq![ws[0]] + insert_spec(ws.drop_first(), name, w);
        lemma_insert_lookup_other(ws.drop_first(), name, w, other);
        assert(r[0] == ws[0]);
        assert(r.drop_first() =~= insert_spec(ws.drop_first(), name, w));
    }
}

/// Binding `name` makes its lookup yield the new binding.
proof fn lemma_insert_lookup_same(ws: Seq<(Seq<char>, WordV)>, name: Seq<char>, w: WordV)
    ensures
        lookup_spec(insert_spec(ws, name, w), name) == Some(w),
    decreases ws.len(),
{
    if ws.len() == 0 {
    } else if ws[0].0 == name {
        let r = seq![(name, w)] + ws.drop_first();
        assert(r[0] == (name, w));
    } else {
        let r = seq![ws[0]] + insert_spec(ws.drop_first(), name, w);
        lemma_insert_lookup_same(ws.drop_first(), name, w);
        assert(r[0] == ws[0]);
        assert(r.drop_first() =~= insert_spec(ws.drop_first(), name, w));
    }
}

/// Every key of the table after an insert is either an old key or the
/// inserted one.
proof fn lemma_insert_keys(ws: Seq<(Seq<char>, WordV)>, name: Seq<char>, w: WordV)
    ensures
        forall|i: int|
            0 <= i < insert_spec(ws, name, w).len() ==> (#[trigger] insert_spec(
                ws,
                name,
                w,
            )[i].0) == name || exists|j: int|
                0 <= j < ws.len() && (#[trigger] ws[j].0) == insert_spec(ws, name, w)[i].0,
    decreases ws.len(),
{
    let r = insert_spec(ws, name, w);
    if ws.len() == 0 {
    } else if ws[0].0 == name {
        assert forall|i: int| 1 <= i < r.len() implies r[i] == ws[i] by {
            assert(r[i] == ws.drop_first()[i - 1]);
        };
    } else {
        lemma_insert_keys(ws.drop_first(), name, w);
        let ri = insert_spec(ws.drop_first(), name, w);
        assert(r[0] == ws[0]);
        assert forall|i: int|
            1 <= i < r.len() implies r[i].0 == name || exists|j: int|
                0 <= j < ws.len() && (#[trigger] ws[j].0) == r[i].0 by {
            assert(r[i] == ri[i - 1]);
            if ri[i - 1].0 != name {
                let j = choose|j: int|
                    0 <= j < ws.drop_first().len() && (#[trigger] ws.drop_first()[j].0)
                        == ri[i - 1].0;
                assert(ws.drop_first()[j] == ws[j + 1]);
                assert(ws[j + 1].0 == r[i].0);
            }
        };
    }
}

/// A well-formed table stays well-formed when a data binding is
/// inserted.
proof fn lemma_insert_wf(ws: Seq<(Seq<char>, WordV)>, name: Seq<char>, w: WordV)
    requires
        wf_words(ws),
        w is Data,
    ensures
        wf_words(insert_spec(ws, name, w)),
    decreases ws.len(),
{
    let r = insert_spec(ws, name, w);
    if ws.len() == 0 {
    } else if ws[0].0 == name {
        assert forall|i: int| 0 <= i < r.len() implies (#[trigger] r[i].1) is Data by {
            if i > 0 {
                assert(r[i] == ws.drop_first()[i - 1]);
                assert(ws.drop_first()[i - 1] == ws[i]);
            }
        };
        assert forall|i: int, j: int|
            0 <= i < j < r.len() implies (#[trigger] r[i].0) != (#[trigger] r[j].0) by {
            assert(r[j] == ws.drop_first()[j - 1]);
            assert(ws.drop_first()[j - 1] == ws[j]);
            if i > 0 {
                assert(r[i] == ws.drop_first()[i - 1]);
                assert(ws.drop_first()[i - 1] == ws[i]);
            }
        };
    } else {
        assert forall|k: int|
            0 <= k < ws.drop_first().len() implies #[trigger] ws.drop_first()[k] == ws[k
            + 1] by {};
        assert(wf_words(ws.drop_first()));
        lemma_insert_wf(ws.drop_first(), name, w);
        lemma_insert_keys(ws.drop_first(), name, w);
        let ri = insert_spec(ws.drop_first(), name, w);
        assert(r[0] == ws[0]);
        assert forall|i: int| 0 <= i < r.len() implies (#[trigger] r[i].1) is Data by {
            if i > 0 {
                assert(r[i] == ri[i - 1]);
            }
        };
        assert forall|i: int, j: int|
            0 <= i < j < r.len() implies (#[trigger] r[i].0) != (#[trigger] r[j].0) by {
            assert(r[j] == ri[j - 1]);
            if i == 0 {
                if ri[j - 1].0 != name {
                    let k = choose|k: int|
                        0 <= k < ws.drop_first().len() && (#[trigger] ws.drop_first()[k].0)
                            == ri[j - 1].0;
                    assert(ws.drop_first()[k] == ws[k + 1]);
                    assert(ws[0].0 != ws[k + 1].0);
                }
            } else {
                assert(r[i] == ri[i - 1]);
            }
        };
    }
}

/// Binding `name` binds exactly `name`: its lookup becomes `w`, every
/// other lookup is untouched, and a well-formed table stays well-formed
/// when `w` is a data binding.
pub proof fn lemma_insert_lookup(ws: Seq<(Seq<char>, WordV)>, name: Seq<char>, w: WordV)
    ensures
        lookup_spec(insert_spec(ws, name, w), name) == Some(w),
        forall|other: Seq<char>|
            other != name ==> #[trigger] lookup_spec(insert_spec(ws, name, w), other)
                == lookup_spec(ws, other),
        wf_words(ws) && w is Data ==> wf_words(insert_spec(ws, name, w)),
{
    lemma_insert_lookup_same(ws, name, w);
    assert forall|other: Seq<char>|
        other != name implies #[trigger] lookup_spec(insert_spec(ws, name, w), other)
            == lookup_spec(ws, other) by {
        lemma_insert_lookup_other(ws, name, w, other);
    };
    if wf_words(ws) && w is Data {
        lemma_insert_wf(ws, name, w);
    }
}

/// Look up `name` in the executable symbol table.
fn words_lookup<'a>(ws: &'a Vec<(String, Word)>, name: &String) -> (r: Option<&'a Word>)
    ensures
        match r {
            Some(w) => lookup_spec(words_view(*ws), name@) == Some(w@),
            None => lookup_spec(words_view(*ws), name@) is None,
        },
{
    let mut i: usize = 0;
    while i < ws.len()
        invariant
            i <= ws.len(),
            forall|j: int| 0 <= j < i ==> (#[trigger] words_view(*ws)[j].0) != name@,
        decreases ws.len() - i,
    {
        if ws[i].0 == *name {
            proof {
                assert(words_view(*ws)[i as int] == (ws@[i as int].0@, ws@[i as int].1@));
                lemma_lookup_at(words_view(*ws), name@, i as int);
            }
            return Some(&ws[i].1);
        }
        proof {
            assert(words_view(*ws)[i as int] == (ws@[i as int].0@, ws@[i as int].1@));
        }
        i = i + 1;
    }
    proof {
        lemma_lookup_none(words_view(*ws), name@);
    }
    None
}

/// Bind `name` to `w` in the executable symbol table: replace the
/// existing entry, or append a new one.
fn words_insert(ws: &mut Vec<(String, Word)>, name: String, w: Word)
    ensures
        words_view(*final(ws)) == insert_spec(words_view(*old(ws)), name@, w@),
{
    let ghost wv = w@;
    let ghost nv = name@;
    let mut i: usize = 0;
    while i < ws.len()
        invariant
            i <= ws.len(),
            *ws == *old(ws),
            forall|j: int| 0 <= j < i ==> (#[trigger] words_view(*ws)[j].0) != nv,
            nv == name@,
            wv == w@,
        decreases ws.len() - i,
    {
        if ws[i].0 == name {
            proof {
                assert(words_view(*ws)[i as int] == (ws@[i as int].0@, ws@[i as int].1@));
                lemma_insert_at(words_view(*ws), nv, wv, i as int);
            }
            ws[i] = (name, w);
            proof {
                assert(words_view(*ws) =~= words_view(*old(ws)).update(i as int, (nv, wv)));
            }
            return ;
        }
        proof {
            assert(words_view(*ws)[i as int] == (ws@[i as int].0@, ws@[i as int].1@));
        }
        i = i + 1;
    }
    proof {
        lemma_insert_append(words_view(*ws), nv, wv);
    }
    ws.push((name, w));
    proof {
        assert(words_view(*ws) =~= words_view(*old(ws)).push((nv, wv)));
    }
}

/// The signed 32-bit reading of a memory length, for the address a fresh
/// variable is bound to.
fn addr_of_len(len: usize) -> (r: i32)
    ensures
        r == addr_at(len as nat),
{
    if len <= 0x7FFF_FFFFusize {
        len as i32
    } else {
        let m: u64 = (len as u64) % 0x1_0000_0000u64;
        if m >= 0x8000_0000u64 {
            let v: i64 = (m as i64) - 0x1_0000_0000i64;
            v as i32
        } else {
            m as i32
        }
    }
}

/// Cropping to 32 bits is the identity on values already in range.
pub proof fn lemma_signed_crop_range(v: int)
    requires
        -0x8000_0000 <= v <= 0x7FFF_FFFF,
    ensures
        i32_specs::signed_crop(v) == v,
{
    if v >= 0 {
        assert(v % 0x1_0000_0000 == v);
    } else {
        assert(v % 0x1_0000_0000 == v + 0x1_0000_0000);
    }
}

/// Cropping wraps a value just above the range down by one carrier width.
proof fn lemma_signed_crop_high(v: int)
    requires
        0x8000_0000 <= v < 0x1_0000_0000,
    ensures
        i32_specs::signed_crop(v) == v - 0x1_0000_0000,
{
    assert(v % 0x1_0000_0000 == v);
}

/// Cropping wraps a value just below the range up by one carrier width.
proof fn lemma_signed_crop_low(v: int)
    requires
        -0x1_0000_0000 <= v < -0x8000_0000,
    ensures
        i32_specs::signed_crop(v) == v + 0x1_0000_0000,
{
    assert(v % 0x1_0000_0000 == v + 0x1_0000_0000);
}

impl Interp {
    /// A fresh interpreter: empty stack, memory, symbol table and output.
    pub fn new() -> (r: Interp)
        ensures
            r@ == init_state(),
            wf_state(r@),
    {
        let r = Interp {
            stack: Vec::new(),
            memory: Vec::new(),
            words: Vec::new(),
            output: String::new(),
        };
        proof {
            assert(words_view(r.words) =~= Seq::<(Seq<char>, WordV)>::empty());
            assert(r@ =~= init_state());
        }
        r
    }

    /// Pop two integers and push the wrapped result of `f` on them.
    fn arith_op(&mut self, f: Func) -> (r: Result<(), ExecutionError>)
        requires
            f == Func::Add || f == Func::Sub || f == Func::Mul,
        ensures
            match step_func(old(self)@, f) {
                Ok(s2) => r is Ok && final(self)@ == s2,
                Err(e) => r matches Err(err) && err@ == e && final(self)@ == old(self)@,
            },
    {
        if self.stack.len() < 2 {
            return Err(ExecutionError::EmptyStack);
        }
        let x = self.stack[self.stack.len() - 1];
        let y = self.stack[self.stack.len() - 2];
        match (x, y) {
            (Data::Int(xv), Data::Int(yv)) => {
                let z: i32 = match f {
                    Func::Add => yv.wrapping_add(xv),
                    Func::Sub => yv.wrapping_sub(xv),
                    Func::Mul => yv.wrapping_mul(xv),
                    _ => vstd::pervasive::unreached(),
                };
                proof {
                    let v = arith_result(f, yv as int, xv as int);
                    if f == Func::Add || f == Func::Sub {
                        if v > i32::MAX as int {
                            lemma_signed_crop_high(v);
                        } else if v < i32::MIN as int {
                            lemma_signed_crop_low(v);
                        } else {
                            lemma_signed_crop_range(v);
                        }
                    }
                    assert(z == i32_specs::signed_crop(v));
                }
                self.stack.pop();
                self.stack.pop();
                self.stack.push(Data::Int(z));
                proof {
                    assert(self@.stack =~= old(self)@.stack.drop_last().drop_last().push(
                        Data::Int(z),
                    ));
                    assert(self@ =~= (match step_func(old(self)@, f) {
                        Ok(s2) => s2,
                        Err(_) => arbitrary(),
                    }));
                }
                Ok(())
            },
            _ => Err(ExecutionError::ImproperArgument),
        }
    }

    /// Pop the divisor then the dividend, both integers, and push the
    /// truncating quotient; fail on a zero divisor.
    fn div_op(&mut self) -> (r: Result<(), ExecutionError>)
        ensures
            match step_func(old(self)@, Func::Div) {
                Ok(s2) => r is Ok && final(self)@ == s2,
                Err(e) => r matches Err(err) && err@ == e && final(self)@ == old(self)@,
            },
    {
        if self.stack.len() < 2 {
            return Err(ExecutionError::EmptyStack);
        }
        let x = self.stack[self.stack.len() - 1];
        let y = self.stack[self.stack.len() - 2];
        match (x, y) {
            (Data::Int(xv), Data::Int(yv)) => {
                if xv == 0 {
                    return Err(ExecutionError::DivideByZero);
                }
                let ym: u32 = if yv < 0 {
                    (-(yv as i64)) as u32
                } else {
                    yv as u32
                };
                let xm: u32 = if xv < 0 {
                    (-(xv as i64)) as u32
                } else {
                    xv as u32
                };
                let q: u32 = ym / xm;
                proof {
                    assert(ym as int == abs(yv as int));
                    assert(xm as int == abs(xv as int));
                    assert(q <= ym) by (nonlinear_arith)
                        requires
                            xm >= 1,
                            q == ym as int / xm as int,
                    ;
                }
                let z: i32 = if (yv < 0) == (xv < 0) {
                    if q >= 0x8000_0000u32 {
                        proof {
                            lemma_signed_crop_high(q as int);
                        }
                        i32::MIN
                    } else {
                        proof {
                            lemma_signed_crop_range(q as int);
                        }
                        q as i32
                    }
                } else {
                    proof {
                        lemma_signed_crop_range(-(q as int));
                    }
                    (-(q as i64)) as i32
                };
                proof {
                    assert(z == i32_specs::signed_crop(div_trunc(yv as int, xv as int)));
                }
                self.stack.pop();
                self.stack.pop();
                self.stack.push(Data::Int(z));
                proof {
                    assert(self@.stack =~= old(self)@.stack.drop_last().drop_last().push(
                        Data::Int(z),
                    ));
                    assert(self@ =~= (match step_func(old(self)@, Func::Div) {
                        Ok(s2) => s2,
                        Err(_) => arbitrary(),
                    }));
                }
                Ok(())
            },
            _ => Err(ExecutionError::ImproperArgument),
        }
    }

    /// Execute one typed instruction against this context, or fail with
    /// the error the run halts with; on failure the context is left as it
    /// stood before the instruction.
    pub fn execute_token(&mut self, token: &Token) -> (r: Result<(), ExecutionError>)
        requires
            wf_state(old(self)@),
            token_supported(token@),
        ensures
            wf_state(final(self)@),
            match step(old(self)@, token@) {
                Ok(s2) => r is Ok && final(self)@ == s2,
                Err(e) => r matches Err(err) && err@ == e && final(self)@ == old(self)@,
            },
    {
        match token {
            Token::Int(x) => {
                self.stack.push(Data::Int(*x));
                proof {
                    assert(self@ =~= StateV { stack: old(self)@.stack.push(Data::Int(x@)), ..old(self)@ });
                }
                Ok(())
            },
            Token::Char(c) => {
                self.stack.push(Data::Char(*c));
                proof {
                    assert(self@ =~= StateV { stack: old(self)@.stack.push(Data::Char(c@)), ..old(self)@ });
                }
                Ok(())
            },
            Token::Func(f) => match f {
                Func::Add | Func::Sub | Func::Mul => self.arith_op(*f),
                Func::Div => self.div_op(),
                Func::Print => {
                    if self.stack.len() == 0 {
                        return Err(ExecutionError::EmptyStack);
                    }
                    let v = self.stack.pop().unwrap();
                    push_display(&mut self.output, v);
                    proof {
                        assert(self@ =~= StateV {
                            stack: old(self)@.stack.drop_last(),
                            output: old(self)@.output + display_text(old(self)@.stack.last()),
                            ..old(self)@
                        });
                    }
                    Ok(())
                },
                Func::DPrint => {
                    if self.stack.len() == 0 {
                        return Err(ExecutionError::EmptyStack);
                    }
                    let v = self.stack.pop().unwrap();
                    push_debug(&mut self.output, v);
                    self.output.append("\n");
                    proof {
                        assert(self@ =~= StateV {
                            stack: old(self)@.stack.drop_last(),
                            output: old(self)@.output + debug_text(old(self)@.stack.last())
                                + "\n"@,
                            ..old(self)@
                        });
                    }
                    Ok(())
                },
                Func::Input => vstd::pervasive::unreached(),
                Func::Dup => match self.stack.dup() {
                    Ok(_) => {
                        proof {
                            assert(self@ =~= StateV {
                                stack: old(self)@.stack.push(old(self)@.stack.last()),
                                ..old(self)@
                            });
                        }
                        Ok(())
                    },
                    Err(_) => Err(ExecutionError::EmptyStack),
                },
                Func::Swap => match self.stack.swap() {
                    Ok(_) => {
                        proof {
                            assert(self@ =~= StateV {
                                stack: old(self)@.stack.drop_last().drop_last().push(
                                    old(self)@.stack.last(),
                                ).push(old(self)@.stack[old(self)@.stack.len() - 2]),
                                ..old(self)@
                            });
                        }
                        Ok(())
                    },
                    Err(_) => Err(ExecutionError::EmptyStack),
                },
                Func::Over => match self.stack.over() {
                    Ok(_) => {
                        proof {
                            assert(self@ =~= StateV {
                                stack: old(self)@.stack.push(
                                    old(self)@.stack[old(self)@.stack.len() - 2],
                                ),
                                ..old(self)@
                            });
                        }
                        Ok(())
                    },
                    Err(_) => Err(ExecutionError::EmptyStack),
                },
                Func::Rotate => match self.stack.rotate() {
                    Ok(_) => {
                        proof {
                            assert(self@ =~= StateV {
                                stack: old(self)@.stack.drop_last().drop_last().drop_last()
                                    .push(old(self)@.stack[old(self)@.stack.len() - 2])
                                    .push(old(self)@.stack[old(self)@.stack.len() - 1])
                                    .push(old(self)@.stack[old(self)@.stack.len() - 3]),
                                ..old(self)@
                            });
                        }
                        Ok(())
                    },
                    Err(_) => Err(ExecutionError::EmptyStack),
                },
                Func::Store => {
                    if self.stack.len() < 2 {
                        return Err(ExecutionError::ImproperArgument);
                    }
                    let top = self.stack[self.stack.len() - 1];
                    match top {
                        Data::Int(loc) => {
                            if loc >= 0 && (loc as usize) < self.memory.len() {
                                self.stack.pop();
                                let val = self.stack.pop().unwrap();
                                self.memory[loc as usize] = Some(val);
                                proof {
                                    assert(self@ =~= StateV {
                                        stack: old(self)@.stack.drop_last().drop_last(),
                                        memory: old(self)@.memory.update(
                                            loc as int,
                                            Some(
                                                old(self)@.stack[old(self)@.stack.len() - 2],
                                            ),
                                        ),
                                        ..old(self)@
                                    });
                                }
                                Ok(())
                            } else {
                                Err(ExecutionError::ImproperArgument)
                            }
                        },
                        _ => Err(ExecutionError::ImproperArgument),
                    }
                },
                Func::Retrieve => {
                    if self.stack.len() == 0 {
                        return Err(ExecutionError::ImproperArgument);
                    }
                    let top = self.stack[self.stack.len() - 1];
                    match top {
                        Data::Int(loc) => {
                            if loc >= 0 && (loc as usize) < self.memory.len() {
                                match self.memory[loc as usize] {
                                    Some(d) => {
                                        self.stack.pop();
                                        self.stack.push(d);
                                        proof {
                                            assert(self@ =~= StateV {
                                                stack: old(self)@.stack.drop_last().push(d),
                                                ..old(self)@
                                            });
                                        }
                                        Ok(())
                                    },
                                    None => Err(ExecutionError::InvalidMemory),
                                }
                            } else {
                                Err(ExecutionError::InvalidMemory)
                            }
                        },
                        _ => Err(ExecutionError::ImproperArgument),
                    }
                },
            },
            Token::Reserved(Reserved::Variable(name)) => {
                let loc = addr_of_len(self.memory.len());
                self.memory.push(None);
                words_insert(&mut self.words, name.clone(), Word::Data(Data::Int(loc)));
                proof {
                    lemma_insert_lookup(
                        old(self)@.words,
                        name@,
                        WordV::Data(Data::Int(addr_at(old(self)@.memory.len()))),
                    );
                    assert(self@ =~= StateV {
                        memory: old(self)@.memory.push(None),
                        words: insert_spec(
                            old(self)@.words,
                            name@,
                            WordV::Data(Data::Int(addr_at(old(self)@.memory.len()))),
                        ),
                        ..old(self)@
                    });
                }
                Ok(())
            },
            Token::Reserved(Reserved::Constant(name)) => {
                if self.stack.len() == 0 {
                    return Err(ExecutionError::EmptyStack);
                }
                let val = self.stack.pop().unwrap();
                words_insert(&mut self.words, name.clone(), Word::Data(val));
                proof {
                    lemma_insert_lookup(
                        old(self)@.words,
                        name@,
                        WordV::Data(old(self)@.stack.last()),
                    );
                    assert(self@ =~= StateV {
                        stack: old(self)@.stack.drop_last(),
                        words: insert_spec(
                            old(self)@.words,
                            name@,
                            WordV::Data(old(self)@.stack.last()),
                        ),
                        ..old(self)@
                    });
                }
                Ok(())
            },
            Token::Keyword(wname) => {
                let found = words_lookup(&self.words, wname);
                match found {
                    Some(wd) => match wd {
                        Word::Data(d) => {
                            let dv = *d;
                            self.stack.push(dv);
                            proof {
                                assert(self@ =~= StateV {
                                    stack: old(self)@.stack.push(dv),
                                    ..old(self)@
                                });
                            }
                            Ok(())
                        },
                        Word::Word(_) => {
                            proof {
                                lemma_lookup_wf(old(self)@.words, wname@);
                            }
                            vstd::pervasive::unreached()
                        },
                    },
                    None => Err(ExecutionError::InvalidWord(wname.clone())),
                }
            },
        }
    }

    /// Execute a whole instruction stream in order, halting on the first
    /// failure; on failure the context is left as it stood before the
    /// failing instruction, output already written included.
    pub fn run(&mut self, tokens: &Vec<Token>) -> (r: Result<(), ExecutionError>)
        requires
            wf_state(old(self)@),
            tokens_supported(tokens_view(tokens@)),
        ensures
            wf_state(final(self)@),
            match run_steps(old(self)@, tokens_view(tokens@)) {
                Ok(s2) => r is Ok && final(self)@ == s2,
                Err(pair) => r matches Err(err) && err@ == pair.1 && final(self)@ == pair.0,
            },
    {
        let ghost tv = tokens_view(tokens@);
        proof {
            assert(tv.skip(0) =~= tv);
        }
        let mut i: usize = 0;
        while i < tokens.len()
            invariant
                i <= tokens.len(),
                tv == tokens_view(tokens@),
                tokens_supported(tv),
                wf_state(self@),
                run_steps(old(self)@, tv) == run_steps(self@, tv.skip(i as int)),
            decreases tokens.len() - i,
        {
            let t = &tokens[i];
            proof {
                assert(tv[i as int] == t@);
                assert(tv.skip(i as int)[0] == tv[i as int]);
                assert(tv.skip(i as int).drop_first() =~= tv.skip(i as int + 1));
                assert(token_supported(tv[i as int]));
            }
            match self.execute_token(t) {
                Ok(_) => {},
                Err(e) => {
                    return Err(e);
                },
            }
            i = i + 1;
        }
        proof {
            assert(tv.skip(i as int) =~= Seq::<TokenV>::empty());
        }
        Ok(())
    }
}


} // verus!
