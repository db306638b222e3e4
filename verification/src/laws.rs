//! The language's laws, stated over the spec-level interpreter and proved
//! once for all states and values: what the arithmetic operators compute,
//! what each stack primitive does to the stack it needs, how store and
//! retrieve round-trip through memory, and how declarations bind names.

use vstd::prelude::*;

use crate::data::Data;
use crate::exec::{
    arith_result, insert_spec, lemma_insert_lookup, lemma_signed_crop_range, lookup_spec,
    run_steps, step, ErrV, StateV, WordV,
};
use crate::token::{Func, ReservedV, TokenV};

verus! {

/// Executing the integer literals `a` then `b` then one arithmetic
/// operator pushes the operator's result on `a` and `b`: `a + b`, `a - b`
/// or `a * b`, whenever that result fits the signed 32-bit range.
pub proof fn lemma_arith_literals(s: StateV, a: i32, b: i32, f: Func)
    requires
        f == Func::Add || f == Func::Sub || f == Func::Mul,
        i32::MIN <= arith_result(f, a as int, b as int) <= i32::MAX,
    ensures
        run_steps(s, seq![TokenV::Int(a), TokenV::Int(b), TokenV::Func(f)]) == Ok::<
            StateV,
            (StateV, ErrV),
        >(
            StateV {
                stack: s.stack.push(Data::Int(arith_result(f, a as int, b as int) as i32)),
                ..s
            },
        ),
{
    let ts = seq![TokenV::Int(a), TokenV::Int(b), TokenV::Func(f)];
    let s1 = StateV { stack: s.stack.push(Data::Int(a)), ..s };
    let s2 = StateV { stack: s1.stack.push(Data::Int(b)), ..s1 };
    assert(ts.drop_first() =~= seq![TokenV::Int(b), TokenV::Func(f)]);
    assert(ts.drop_first().drop_first() =~= seq![TokenV::Func(f)]);
    assert(seq![TokenV::Func(f)].drop_first() =~= Seq::<TokenV>::empty());
    assert(s2.stack[s2.stack.len() - 1] == Data::Int(b));
    assert(s2.stack[s2.stack.len() - 2] == Data::Int(a));
    lemma_signed_crop_range(arith_result(f, a as int, b as int));
    assert(step(s, ts[0]) == Ok::<StateV, ErrV>(s1));
    assert(step(s1, ts.drop_first()[0]) == Ok::<StateV, ErrV>(s2));
    assert(step(s2, TokenV::Func(f)) is Ok);
    let s3 = step(s2, TokenV::Func(f))->Ok_0;
    assert(s3.stack =~= s.stack.push(
        Data::Int(arith_result(f, a as int, b as int) as i32),
    ));
    assert(s3 =~= StateV {
        stack: s.stack.push(Data::Int(arith_result(f, a as int, b as int) as i32)),
        ..s
    });
    assert(run_steps(s, ts) == run_steps(s1, ts.drop_first()));
    assert(run_steps(s1, ts.drop_first()) == run_steps(s2, ts.drop_first().drop_first()));
    assert(run_steps(s2, ts.drop_first().drop_first()) == run_steps(
        s3,
        Seq::<TokenV>::empty(),
    ));
    assert(run_steps(s3, Seq::<TokenV>::empty()) == Ok::<StateV, (StateV, ErrV)>(s3));
}

/// Duplicate on a stack holding exactly `x` yields the stack `x, x`.
pub proof fn lemma_dup_single(s: StateV, x: Data)
    requires
        s.stack == seq![x],
    ensures
        step(s, TokenV::Func(Func::Dup)) == Ok::<StateV, ErrV>(
            StateV { stack: seq![x, x], ..s },
        ),
{
    let s2 = step(s, TokenV::Func(Func::Dup))->Ok_0;
    assert(s2.stack =~= seq![x, x]);
    assert(s2 =~= StateV { stack: seq![x, x], ..s });
}

/// Duplicate on an empty stack fails with the empty-stack error.
pub proof fn lemma_dup_empty(s: StateV)
    requires
        s.stack.len() == 0,
    ensures
        step(s, TokenV::Func(Func::Dup)) == Err::<StateV, ErrV>(ErrV::EmptyStack),
{
}

/// Swap on a stack holding `y` below `x` exchanges the two.
pub proof fn lemma_swap_pair(s: StateV, y: Data, x: Data)
    requires
        s.stack == seq![y, x],
    ensures
        step(s, TokenV::Func(Func::Swap)) == Ok::<StateV, ErrV>(
            StateV { stack: seq![x, y], ..s },
        ),
{
    let s2 = step(s, TokenV::Func(Func::Swap))->Ok_0;
    assert(s.stack[s.stack.len() - 2] == y);
    assert(s2.stack =~= seq![x, y]);
    assert(s2 =~= StateV { stack: seq![x, y], ..s });
}

/// Over on a stack holding `y` below `x` copies the second-from-top
/// element to the new top: the stack becomes `y, x, y`.
pub proof fn lemma_over_pair(s: StateV, y: Data, x: Data)
    requires
        s.stack == seq![y, x],
    ensures
        step(s, TokenV::Func(Func::Over)) == Ok::<StateV, ErrV>(
            StateV { stack: seq![y, x, y], ..s },
        ),
{
    let s2 = step(s, TokenV::Func(Func::Over))->Ok_0;
    assert(s.stack[s.stack.len() - 2] == y);
    assert(s2.stack =~= seq![y, x, y]);
    assert(s2 =~= StateV { stack: seq![y, x, y], ..s });
}

/// Rotate on a stack holding `z`, `y`, `x` (top last) pops x, y, z and
/// pushes y, x, z: the third-from-top element moves to the new top.
pub proof fn lemma_rotate_triple(s: StateV, z: Data, y: Data, x: Data)
    requires
        s.stack == seq![z, y, x],
    ensures
        step(s, TokenV::Func(Func::Rotate)) == Ok::<StateV, ErrV>(
            StateV { stack: seq![y, x, z], ..s },
        ),
{
    let s2 = step(s, TokenV::Func(Func::Rotate))->Ok_0;
    assert(s.stack[s.stack.len() - 2] == y);
    assert(s.stack[s.stack.len() - 3] == z);
    assert(s2.stack =~= seq![y, x, z]);
    assert(s2 =~= StateV { stack: seq![y, x, z], ..s });
}

/// Store then retrieve round-trips: with value `v` and a valid address
/// `a` on the stack, executing store, the literal `a`, and retrieve
/// leaves `v` back on top, and the cell at `a` set to `v`.
pub proof fn lemma_store_retrieve(s: StateV, v: Data, a: i32)
    requires
        0 <= a < s.memory.len(),
    ensures
        ({
            let s0 = StateV { stack: s.stack.push(v).push(Data::Int(a)), ..s };
            let ts = seq![
                TokenV::Func(Func::Store),
                TokenV::Int(a),
                TokenV::Func(Func::Retrieve),
            ];
            run_steps(s0, ts) == Ok::<StateV, (StateV, ErrV)>(
                StateV {
                    stack: s.stack.push(v),
                    memory: s.memory.update(a as int, Some(v)),
                    ..s
                },
            )
        }),
{
    let s0 = StateV { stack: s.stack.push(v).push(Data::Int(a)), ..s };
    let ts = seq![TokenV::Func(Func::Store), TokenV::Int(a), TokenV::Func(Func::Retrieve)];
    assert(ts.drop_first() =~= seq![TokenV::Int(a), TokenV::Func(Func::Retrieve)]);
    assert(ts.drop_first().drop_first() =~= seq![TokenV::Func(Func::Retrieve)]);
    assert(seq![TokenV::Func(Func::Retrieve)].drop_first() =~= Seq::<TokenV>::empty());
    assert(s0.stack[s0.stack.len() - 1] == Data::Int(a));
    assert(s0.stack[s0.stack.len() - 2] == v);
    assert(step(s0, ts[0]) is Ok);
    let s1 = step(s0, ts[0])->Ok_0;
    assert(s1.stack =~= s.stack);
    assert(step(s1, ts[1]) is Ok);
    let s2 = step(s1, ts[1])->Ok_0;
    assert(s2.stack[s2.stack.len() - 1] == Data::Int(a));
    assert(s2.memory[a as int] == Some(v));
    assert(step(s2, ts[2]) is Ok);
    let s3 = step(s2, ts[2])->Ok_0;
    assert(s3.stack =~= s.stack.push(v));
    assert(s3 =~= StateV {
        stack: s.stack.push(v),
        memory: s.memory.update(a as int, Some(v)),
        ..s
    });
    assert(ts.drop_first()[0] == ts[1]);
    assert(ts.drop_first().drop_first()[0] == ts[2]);
    assert(run_steps(s0, ts) == run_steps(s1, ts.drop_first()));
    assert(run_steps(s1, ts.drop_first()) == run_steps(s2, ts.drop_first().drop_first()));
    assert(run_steps(s2, ts.drop_first().drop_first()) == run_steps(
        s3,
        Seq::<TokenV>::empty(),
    ));
    assert(run_steps(s3, Seq::<TokenV>::empty()) == Ok::<StateV, (StateV, ErrV)>(s3));
}

/// Retrieve on an address never stored fails with the invalid-memory
/// error: whether the address lies outside the region, or names a cell
/// still uninitialized.
pub proof fn lemma_retrieve_unset(s: StateV, a: i32)
    requires
        s.stack.len() >= 1,
        s.stack.last() == Data::Int(a),
        a < 0 || a >= s.memory.len() || s.memory[a as int] is None,
    ensures
        step(s, TokenV::Func(Func::Retrieve)) == Err::<StateV, ErrV>(ErrV::InvalidMemory),
{
}

/// Declaring a constant `name` after pushing `v` binds `name` to `v`,
/// and referencing `name` then pushes a copy of `v` back.
pub proof fn lemma_constant_reference(s: StateV, v: Data, name: Seq<char>)
    ensures
        ({
            let s0 = StateV { stack: s.stack.push(v), ..s };
            let ts = seq![
                TokenV::Reserved(ReservedV::Constant(name)),
                TokenV::Keyword(name),
            ];
            run_steps(s0, ts) == Ok::<StateV, (StateV, ErrV)>(
                StateV {
                    stack: s.stack.push(v),
                    words: insert_spec(s.words, name, WordV::Data(v)),
                    ..s
                },
            )
        }),
{
    let s0 = StateV { stack: s.stack.push(v), ..s };
    let ts = seq![TokenV::Reserved(ReservedV::Constant(name)), TokenV::Keyword(name)];
    assert(ts.drop_first() =~= seq![TokenV::Keyword(name)]);
    assert(seq![TokenV::Keyword(name)].drop_first() =~= Seq::<TokenV>::empty());
    assert(step(s0, ts[0]) is Ok);
    let s1 = step(s0, ts[0])->Ok_0;
    assert(s1.stack =~= s.stack);
    assert(s1.words == insert_spec(s.words, name, WordV::Data(v)));
    lemma_insert_lookup(s.words, name, WordV::Data(v));
    assert(step(s1, ts[1]) is Ok);
    let s2 = step(s1, ts[1])->Ok_0;
    assert(s2 =~= StateV {
        stack: s.stack.push(v),
        words: insert_spec(s.words, name, WordV::Data(v)),
        ..s
    });
    assert(ts.drop_first()[0] == ts[1]);
    assert(run_steps(s0, ts) == run_steps(s1, ts.drop_first()));
    assert(run_steps(s1, ts.drop_first()) == run_steps(s2, Seq::<TokenV>::empty()));
    assert(run_steps(s2, Seq::<TokenV>::empty()) == Ok::<StateV, (StateV, ErrV)>(s2));
}

/// Declaring a variable allocates a fresh uninitialized cell and binds
/// the name to its address: the old memory length, strictly greater than
/// every previously allocated address, which all lie below it.
pub proof fn lemma_variable_fresh(s: StateV, name: Seq<char>)
    requires
        s.memory.len() <= 0x7FFF_FFFF,
    ensures
        ({
            let r = step(s, TokenV::Reserved(ReservedV::Variable(name)));
            &&& r is Ok
            &&& r->Ok_0.memory.len() == s.memory.len() + 1
            &&& r->Ok_0.memory[s.memory.len() as int] is None
            &&& lookup_spec(r->Ok_0.words, name) == Some(
                WordV::Data(Data::Int(s.memory.len() as i32)),
            )
        }),
{
    lemma_signed_crop_range(s.memory.len() as int);
    lemma_insert_lookup(
        s.words,
        name,
        WordV::Data(Data::Int(s.memory.len() as i32)),
    );
}

/// Referencing a variable before any store, then retrieving, fails with
/// the invalid-memory error: the fresh cell is uninitialized.
pub proof fn lemma_variable_unset_retrieve(s: StateV, name: Seq<char>)
    requires
        s.memory.len() <= 0x7FFF_FFFF,
    ensures
        ({
            let ts = seq![
                TokenV::Reserved(ReservedV::Variable(name)),
                TokenV::Keyword(name),
                TokenV::Func(Func::Retrieve),
            ];
            run_steps(s, ts) matches Err(pair) && pair.1 == ErrV::InvalidMemory
        }),
{
    let ts = seq![
        TokenV::Reserved(ReservedV::Variable(name)),
        TokenV::Keyword(name),
        TokenV::Func(Func::Retrieve),
    ];
    assert(ts.drop_first() =~= seq![TokenV::Keyword(name), TokenV::Func(Func::Retrieve)]);
    assert(ts.drop_first().drop_first() =~= seq![TokenV::Func(Func::Retrieve)]);
    lemma_signed_crop_range(s.memory.len() as int);
    lemma_insert_lookup(
        s.words,
        name,
        WordV::Data(Data::Int(s.memory.len() as i32)),
    );
    assert(step(s, ts[0]) is Ok);
    let s1 = step(s, ts[0])->Ok_0;
    assert(step(s1, ts[1]) is Ok);
    let s2 = step(s1, ts[1])->Ok_0;
    assert(s2.stack.last() == Data::Int(s.memory.len() as i32));
    assert(s2.memory[s.memory.len() as int] is None);
    assert(step(s2, TokenV::Func(Func::Retrieve)) == Err::<StateV, ErrV>(
        ErrV::InvalidMemory,
    ));
    assert(ts.drop_first()[0] == ts[1]);
    assert(ts.drop_first().drop_first()[0] == ts[2]);
    assert(run_steps(s, ts) == run_steps(s1, ts.drop_first()));
    assert(run_steps(s1, ts.drop_first()) == run_steps(s2, ts.drop_first().drop_first()));
    assert(run_steps(s2, ts.drop_first().drop_first()) == Err::<StateV, (StateV, ErrV)>(
        (s2, ErrV::InvalidMemory),
    ));
}

/// Referencing an undeclared identifier fails with the invalid-word
/// error carrying that identifier's text.
pub proof fn lemma_unbound_reference(s: StateV, name: Seq<char>)
    requires
        lookup_spec(s.words, name) is None,
    ensures
        step(s, TokenV::Keyword(name)) == Err::<StateV, ErrV>(ErrV::InvalidWord(name)),
{
}

} // verus!
