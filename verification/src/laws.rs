//! Laws of the directive processor, stated and proved over the
//! specification interpreter: how module references compose, how
//! conditional blocks select their branch, and when a build must fail.

use vstd::prelude::*;

use crate::process::{
    chain_ok, define_word, else_word, endif_word, ifdef_word, ifndef_word, process_lines,
    process_module, process_references, reference_word, undef_word, SpecError,
};
use crate::table::{defs_contains, substituted, Defs};
use crate::text::{
    is_space, lemma_lines_cons, lemma_tokens_one, lemma_tokens_three, lemma_tokens_two, lines_of,
    tokens_of, word_token,
};
use crate::{built_source, BuilderV};

verus! {

/// The seven directive words: each is a single word, and no two are alike.
pub proof fn lemma_keyword_facts()
    ensures
        word_token(endif_word()),
        word_token(else_word()),
        word_token(undef_word()),
        word_token(ifdef_word()),
        word_token(ifndef_word()),
        word_token(reference_word()),
        word_token(define_word()),
        endif_word() != else_word(),
        endif_word() != undef_word(),
        endif_word() != ifdef_word(),
        endif_word() != ifndef_word(),
        endif_word() != reference_word(),
        endif_word() != define_word(),
        else_word() != undef_word(),
        else_word() != ifdef_word(),
        else_word() != ifndef_word(),
        else_word() != reference_word(),
        else_word() != define_word(),
        undef_word() != ifdef_word(),
        undef_word() != ifndef_word(),
        undef_word() != reference_word(),
        undef_word() != define_word(),
        ifdef_word() != ifndef_word(),
        ifdef_word() != reference_word(),
        ifdef_word() != define_word(),
        ifndef_word() != reference_word(),
        ifndef_word() != define_word(),
        reference_word() != define_word(),
{
    reveal_strlit("//!endif");
    reveal_strlit("//!else");
    reveal_strlit("//!undef");
    reveal_strlit("//!ifdef");
    reveal_strlit("//!ifndef");
    reveal_strlit("//!include");
    reveal_strlit("//!define");
    assert(endif_word()[3] != undef_word()[3]);
    assert(endif_word()[3] != ifdef_word()[3]);
    assert(undef_word()[3] != ifdef_word()[3]);
    assert(ifndef_word()[3] != define_word()[3]);
    assert(forall|k: int| 0 <= k < endif_word().len() ==> !is_space(endif_word()[k]));
    assert(forall|k: int| 0 <= k < else_word().len() ==> !is_space(else_word()[k]));
    assert(forall|k: int| 0 <= k < undef_word().len() ==> !is_space(undef_word()[k]));
    assert(forall|k: int| 0 <= k < ifdef_word().len() ==> !is_space(ifdef_word()[k]));
    assert(forall|k: int| 0 <= k < ifndef_word().len() ==> !is_space(ifndef_word()[k]));
    assert(forall|k: int| 0 <= k < reference_word().len() ==> !is_space(reference_word()[k]));
    assert(forall|k: int| 0 <= k < define_word().len() ==> !is_space(define_word()[k]));
}

/// Inlining through a wrapper is transparent: a module whose single line
/// references another module processes to exactly what that module
/// processes to (one level deeper in the reference chain), text and macro
/// table alike — so nested and flattened references of the same files yield
/// identical text, whatever the depth.
pub proof fn lemma_reference_transparent(
    store: Map<Seq<char>, Seq<char>>,
    wrapper: Seq<char>,
    target: Seq<char>,
    defs: Defs,
    chain: Set<Seq<char>>,
)
    requires
        chain_ok(store, chain),
        store.dom().contains(wrapper),
        !chain.contains(wrapper),
        word_token(target),
        target != wrapper,
        !chain.contains(target),
        store[wrapper] == reference_word() + seq![' '] + target + seq!['\n'],
    ensures
        process_module(store, wrapper, defs, chain) == process_module(
            store,
            target,
            defs,
            chain.insert(wrapper),
        ),
{
    let chain2 = chain.insert(wrapper);
    lemma_keyword_facts();
    let l0 = reference_word() + seq![' '] + target;
    assert(store[wrapper] =~= l0 + seq!['\n'] + Seq::<char>::empty());
    lemma_lines_cons(l0, Seq::empty());
    assert(lines_of(Seq::<char>::empty()) =~= Seq::<Seq<char>>::empty());
    assert(lines_of(store[wrapper]) =~= seq![l0]);
    lemma_tokens_two(reference_word(), target);
    assert(tokens_of(l0) == seq![reference_word(), target]);
    let paths = tokens_of(l0).drop_first();
    assert(paths =~= seq![target]);
    let empty_out = Seq::<char>::empty();
    let empty_stack = Seq::<(Seq<char>, bool)>::empty();
    let r = process_module(store, target, defs, chain2);
    let lines = lines_of(store[wrapper]);
    if r is Ok {
        let t = r->Ok_0.0;
        let d = r->Ok_0.1;
        assert(process_references(store, paths, 1, d, chain2) == Ok::<(Seq<char>, Defs), SpecError>(
            (Seq::empty(), d),
        ));
        assert(t + Seq::<char>::empty() =~= t);
        assert(process_references(store, paths, 0, defs, chain2) == Ok::<
            (Seq<char>, Defs),
            SpecError,
        >((t, d)));
        assert(empty_out + t =~= t);
        assert(process_lines(store, lines, 1, d, empty_stack, t, chain2) == Ok::<
            (Seq<char>, Defs),
            SpecError,
        >((t, d)));
        assert(process_lines(store, lines, 0, defs, empty_stack, empty_out, chain2) == Ok::<
            (Seq<char>, Defs),
            SpecError,
        >((t, d)));
        assert(process_module(store, wrapper, defs, chain) == r);
    } else {
        let e = r->Err_0;
        assert(process_references(store, paths, 0, defs, chain2) == Err::<
            (Seq<char>, Defs),
            SpecError,
        >(e));
        assert(process_lines(store, lines, 0, defs, empty_stack, empty_out, chain2) == Err::<
            (Seq<char>, Defs),
            SpecError,
        >(e));
        assert(process_module(store, wrapper, defs, chain) == r);
    }
}

/// A line of ordinary text: free of line breaks, not ending in a carriage
/// return, and opening with no directive word.
pub open spec fn plain_line(l: Seq<char>) -> bool {
    &&& forall|k: int| 0 <= k < l.len() ==> l[k] != '\n'
    &&& (l.len() > 0 ==> l[l.len() - 1] != '\r')
    &&& (tokens_of(l).len() > 0 ==> {
        let t = tokens_of(l)[0];
        &&& t != endif_word()
        &&& t != else_word()
        &&& t != undef_word()
        &&& t != ifdef_word()
        &&& t != ifndef_word()
        &&& t != reference_word()
        &&& t != define_word()
    })
}

/// Referencing two modules on one line concatenates their processed texts:
/// the first is processed with the incoming macro table, the second with
/// the table as the first left it, and the module's text is the two texts
/// in order. With a first module that adds no macros, this is exactly the
/// concatenation of processing each alone.
pub proof fn lemma_reference_concat(
    store: Map<Seq<char>, Seq<char>>,
    root: Seq<char>,
    a: Seq<char>,
    b: Seq<char>,
    defs: Defs,
    chain: Set<Seq<char>>,
)
    requires
        chain_ok(store, chain),
        store.dom().contains(root),
        !chain.contains(root),
        word_token(a),
        word_token(b),
        a != root,
        b != root,
        !chain.contains(a),
        !chain.contains(b),
        store[root] == reference_word() + seq![' '] + a + seq![' '] + b + seq!['\n'],
    ensures
        process_module(store, root, defs, chain) == match process_module(
            store,
            a,
            defs,
            chain.insert(root),
        ) {
            Err(e) => Err(e),
            Ok(pa) => match process_module(store, b, pa.1, chain.insert(root)) {
                Err(e) => Err(e),
                Ok(pb) => Ok((pa.0 + pb.0, pb.1)),
            },
        },
{
    let chain2 = chain.insert(root);
    lemma_keyword_facts();
    let l0 = reference_word() + seq![' '] + a + seq![' '] + b;
    assert(store[root] =~= l0 + seq!['\n'] + Seq::<char>::empty());
    lemma_lines_cons(l0, Seq::empty());
    assert(lines_of(Seq::<char>::empty()) =~= Seq::<Seq<char>>::empty());
    assert(lines_of(store[root]) =~= seq![l0]);
    lemma_tokens_three(reference_word(), a, b);
    assert(tokens_of(l0) == seq![reference_word(), a, b]);
    let paths = tokens_of(l0).drop_first();
    assert(paths =~= seq![a, b]);
    let empty_out = Seq::<char>::empty();
    let empty_stack = Seq::<(Seq<char>, bool)>::empty();
    let lines = lines_of(store[root]);
    let ra = process_module(store, a, defs, chain2);
    if ra is Ok {
        let ta = ra->Ok_0.0;
        let d1 = ra->Ok_0.1;
        let rb = process_module(store, b, d1, chain2);
        if rb is Ok {
            let tb = rb->Ok_0.0;
            let d2 = rb->Ok_0.1;
            assert(process_references(store, paths, 2, d2, chain2) == Ok::<
                (Seq<char>, Defs),
                SpecError,
            >((Seq::empty(), d2)));
            assert(tb + Seq::<char>::empty() =~= tb);
            assert(process_references(store, paths, 1, d1, chain2) == Ok::<
                (Seq<char>, Defs),
                SpecError,
            >((tb, d2)));
            assert(process_references(store, paths, 0, defs, chain2) == Ok::<
                (Seq<char>, Defs),
                SpecError,
            >((ta + tb, d2)));
            assert(empty_out + (ta + tb) =~= ta + tb);
            assert(process_lines(store, lines, 1, d2, empty_stack, ta + tb, chain2) == Ok::<
                (Seq<char>, Defs),
                SpecError,
            >((ta + tb, d2)));
            assert(process_lines(store, lines, 0, defs, empty_stack, empty_out, chain2) == Ok::<
                (Seq<char>, Defs),
                SpecError,
            >((ta + tb, d2)));
        } else {
            let e = rb->Err_0;
            assert(process_references(store, paths, 1, d1, chain2) == Err::<
                (Seq<char>, Defs),
                SpecError,
            >(e));
            assert(process_references(store, paths, 0, defs, chain2) == Err::<
                (Seq<char>, Defs),
                SpecError,
            >(e));
            assert(process_lines(store, lines, 0, defs, empty_stack, empty_out, chain2) == Err::<
                (Seq<char>, Defs),
                SpecError,
            >(e));
        }
    } else {
        let e = ra->Err_0;
        assert(process_references(store, paths, 0, defs, chain2) == Err::<
            (Seq<char>, Defs),
            SpecError,
        >(e));
        assert(process_lines(store, lines, 0, defs, empty_stack, empty_out, chain2) == Err::<
            (Seq<char>, Defs),
            SpecError,
        >(e));
    }
}

/// The independent reading of the concatenation law: when the first
/// referenced module leaves the macro table unchanged, referencing A then B
/// yields exactly the text of processing A alone followed by the text of
/// processing B alone.
pub proof fn lemma_reference_concat_independent(
    store: Map<Seq<char>, Seq<char>>,
    root: Seq<char>,
    a: Seq<char>,
    b: Seq<char>,
    defs: Defs,
    chain: Set<Seq<char>>,
    text_a: Seq<char>,
    text_b: Seq<char>,
    defs_b: Defs,
)
    requires
        chain_ok(store, chain),
        store.dom().contains(root),
        !chain.contains(root),
        word_token(a),
        word_token(b),
        a != root,
        b != root,
        !chain.contains(a),
        !chain.contains(b),
        store[root] == reference_word() + seq![' '] + a + seq![' '] + b + seq!['\n'],
        process_module(store, a, defs, chain.insert(root)) == Ok::<(Seq<char>, Defs), SpecError>(
            (text_a, defs),
        ),
        process_module(store, b, defs, chain.insert(root)) == Ok::<(Seq<char>, Defs), SpecError>(
            (text_b, defs_b),
        ),
    ensures
        process_module(store, root, defs, chain) == Ok::<(Seq<char>, Defs), SpecError>(
            (text_a + text_b, defs_b),
        ),
{
    lemma_reference_concat(store, root, a, b, defs, chain);
}

/// A module whose one conditional lacks its `endif` fails with
/// `UnterminatedConditional`.
pub proof fn lemma_unterminated_conditional(
    store: Map<Seq<char>, Seq<char>>,
    path: Seq<char>,
    x: Seq<char>,
    defs: Defs,
    chain: Set<Seq<char>>,
)
    requires
        chain_ok(store, chain),
        store.dom().contains(path),
        !chain.contains(path),
        word_token(x),
        store[path] == ifdef_word() + seq![' '] + x + seq!['\n'],
    ensures
        process_module(store, path, defs, chain) == Err::<(Seq<char>, Defs), SpecError>(
            SpecError::UnterminatedConditional,
        ),
{
    let chain2 = chain.insert(path);
    lemma_keyword_facts();
    let l0 = ifdef_word() + seq![' '] + x;
    assert(store[path] =~= l0 + seq!['\n'] + Seq::<char>::empty());
    lemma_lines_cons(l0, Seq::empty());
    assert(lines_of(Seq::<char>::empty()) =~= Seq::<Seq<char>>::empty());
    assert(lines_of(store[path]) =~= seq![l0]);
    lemma_tokens_two(ifdef_word(), x);
    let lines = lines_of(store[path]);
    let empty_out = Seq::<char>::empty();
    let empty_stack = Seq::<(Seq<char>, bool)>::empty();
    let stack1 = empty_stack.push((x, true));
    assert(process_lines(store, lines, 1, defs, stack1, empty_out, chain2) == Err::<
        (Seq<char>, Defs),
        SpecError,
    >(SpecError::UnterminatedConditional));
    assert(process_lines(store, lines, 0, defs, empty_stack, empty_out, chain2) == Err::<
        (Seq<char>, Defs),
        SpecError,
    >(SpecError::UnterminatedConditional));
}

/// An `undef` of a name that is not defined fails with `UndefinedSymbol`,
/// naming it.
pub proof fn lemma_undef_of_undefined(
    store: Map<Seq<char>, Seq<char>>,
    path: Seq<char>,
    name: Seq<char>,
    defs: Defs,
    chain: Set<Seq<char>>,
)
    requires
        chain_ok(store, chain),
        store.dom().contains(path),
        !chain.contains(path),
        word_token(name),
        !defs_contains(defs, name),
        store[path] == undef_word() + seq![' '] + name + seq!['\n'],
    ensures
        process_module(store, path, defs, chain) == Err::<(Seq<char>, Defs), SpecError>(
            SpecError::UndefinedSymbol(name),
        ),
{
    let chain2 = chain.insert(path);
    lemma_keyword_facts();
    let l0 = undef_word() + seq![' '] + name;
    assert(store[path] =~= l0 + seq!['\n'] + Seq::<char>::empty());
    lemma_lines_cons(l0, Seq::empty());
    assert(lines_of(Seq::<char>::empty()) =~= Seq::<Seq<char>>::empty());
    assert(lines_of(store[path]) =~= seq![l0]);
    lemma_tokens_two(undef_word(), name);
    let lines = lines_of(store[path]);
    assert(process_lines(
        store,
        lines,
        0,
        defs,
        Seq::<(Seq<char>, bool)>::empty(),
        Seq::<char>::empty(),
        chain2,
    ) == Err::<(Seq<char>, Defs), SpecError>(SpecError::UndefinedSymbol(name)));
}

/// A conditional block selects its branch by the guarded name's current
/// defined-ness: with `must_be_defined` (an `ifdef` guard), the module
/// yields the first block exactly when the name is defined, and the `else`
/// block otherwise; with an `ifndef` guard the selection is reversed. The
/// macro table is left unchanged.
pub proof fn lemma_conditional_block(
    store: Map<Seq<char>, Seq<char>>,
    path: Seq<char>,
    x: Seq<char>,
    p: Seq<char>,
    q: Seq<char>,
    defs: Defs,
    chain: Set<Seq<char>>,
    must_be_defined: bool,
)
    requires
        chain_ok(store, chain),
        store.dom().contains(path),
        !chain.contains(path),
        word_token(x),
        plain_line(p),
        plain_line(q),
        store[path] == (if must_be_defined {
            ifdef_word()
        } else {
            ifndef_word()
        }) + seq![' '] + x + seq!['\n'] + p + seq!['\n'] + else_word() + seq!['\n'] + q + seq![
            '\n',
        ] + endif_word() + seq!['\n'],
    ensures
        process_module(store, path, defs, chain) == Ok::<(Seq<char>, Defs), SpecError>(
            (
                (if defs_contains(defs, x) == must_be_defined {
                    p
                } else {
                    q
                }) + seq!['\n'],
                defs,
            ),
        ),
{
    let chain2 = chain.insert(path);
    lemma_keyword_facts();
    let guard = if must_be_defined {
        ifdef_word()
    } else {
        ifndef_word()
    };
    let l0 = guard + seq![' '] + x;
    let tail4 = endif_word() + seq!['\n'];
    let tail3 = q + seq!['\n'] + tail4;
    let tail2 = else_word() + seq!['\n'] + tail3;
    let tail1 = p + seq!['\n'] + tail2;
    assert(store[path] =~= l0 + seq!['\n'] + tail1);
    assert(tail1 =~= p + seq!['\n'] + tail2);
    assert(tail2 =~= else_word() + seq!['\n'] + tail3);
    assert(tail3 =~= q + seq!['\n'] + tail4);
    assert(tail4 =~= endif_word() + seq!['\n'] + Seq::<char>::empty());
    lemma_lines_cons(l0, tail1);
    lemma_lines_cons(p, tail2);
    lemma_lines_cons(else_word(), tail3);
    lemma_lines_cons(q, tail4);
    lemma_lines_cons(endif_word(), Seq::empty());
    assert(lines_of(Seq::<char>::empty()) =~= Seq::<Seq<char>>::empty());
    let lines = lines_of(store[path]);
    assert(lines =~= seq![l0, p, else_word(), q, endif_word()]);
    lemma_tokens_two(guard, x);
    lemma_tokens_one(else_word());
    lemma_tokens_one(endif_word());
    let empty_out = Seq::<char>::empty();
    let empty_stack = Seq::<(Seq<char>, bool)>::empty();
    let stack1 = empty_stack.push((x, must_be_defined));
    assert(tokens_of(l0)[0] == ifdef_word() <==> must_be_defined);
    let stack2 = stack1.update(0, (x, !must_be_defined));
    assert(stack1.update(stack1.len() - 1, (stack1.last().0, !stack1.last().1)) =~= stack2);
    assert(stack2.drop_last() =~= empty_stack);
    assert(stack1.drop_last() =~= empty_stack);
    let hit = defs_contains(defs, x) == must_be_defined;
    let out_p = empty_out + p + seq!['\n'];
    let out_q = empty_out + q + seq!['\n'];
    assert(out_p =~= p + seq!['\n']);
    assert(out_q =~= q + seq!['\n']);
    if hit {
        assert(process_lines(store, lines, 5, defs, empty_stack, out_p, chain2) == Ok::<
            (Seq<char>, Defs),
            SpecError,
        >((out_p, defs)));
        assert(process_lines(store, lines, 4, defs, stack2, out_p, chain2) == Ok::<
            (Seq<char>, Defs),
            SpecError,
        >((out_p, defs)));
        assert(!(defs_contains(defs, x) == !must_be_defined));
        assert(process_lines(store, lines, 3, defs, stack2, out_p, chain2) == Ok::<
            (Seq<char>, Defs),
            SpecError,
        >((out_p, defs)));
        assert(process_lines(store, lines, 2, defs, stack1, out_p, chain2) == Ok::<
            (Seq<char>, Defs),
            SpecError,
        >((out_p, defs)));
        assert(process_lines(store, lines, 1, defs, stack1, empty_out, chain2) == Ok::<
            (Seq<char>, Defs),
            SpecError,
        >((out_p, defs)));
        assert(process_lines(store, lines, 0, defs, empty_stack, empty_out, chain2) == Ok::<
            (Seq<char>, Defs),
            SpecError,
        >((out_p, defs)));
    } else {
        assert(process_lines(store, lines, 5, defs, empty_stack, out_q, chain2) == Ok::<
            (Seq<char>, Defs),
            SpecError,
        >((out_q, defs)));
        assert(process_lines(store, lines, 4, defs, stack2, out_q, chain2) == Ok::<
            (Seq<char>, Defs),
            SpecError,
        >((out_q, defs)));
        assert(process_lines(store, lines, 3, defs, stack2, empty_out, chain2) == Ok::<
            (Seq<char>, Defs),
            SpecError,
        >((out_q, defs)));
        assert(process_lines(store, lines, 2, defs, stack1, empty_out, chain2) == Ok::<
            (Seq<char>, Defs),
            SpecError,
        >((out_q, defs)));
        assert(process_lines(store, lines, 1, defs, stack1, empty_out, chain2) == Ok::<
            (Seq<char>, Defs),
            SpecError,
        >((out_q, defs)));
        assert(process_lines(store, lines, 0, defs, empty_stack, empty_out, chain2) == Ok::<
            (Seq<char>, Defs),
            SpecError,
        >((out_q, defs)));
    }
}

/// A successful outcome does not depend on the chain of modules in
/// progress: shrinking the chain can only remove cycle errors, so a module
/// that processes to `Ok` under some chain processes to the same result
/// under any smaller chain.
pub proof fn lemma_chain_shrink_module(
    store: Map<Seq<char>, Seq<char>>,
    path: Seq<char>,
    defs: Defs,
    c1: Set<Seq<char>>,
    c2: Set<Seq<char>>,
)
    requires
        chain_ok(store, c1),
        c2.subset_of(c1),
        !c1.contains(path),
        process_module(store, path, defs, c1) is Ok,
    ensures
        process_module(store, path, defs, c2) == process_module(store, path, defs, c1),
    decreases store.dom().len() - c1.len(), 0int, 0int, 0int,
{
    vstd::set_lib::lemma_len_subset(c2, store.dom());
    if store.dom().contains(path) {
        broadcast use vstd::set::axiom_set_insert_len;

        vstd::set_lib::lemma_len_subset(c1.insert(path), store.dom());
        assert(c2.insert(path).subset_of(c1.insert(path)));
        lemma_chain_shrink_lines(
            store,
            lines_of(store[path]),
            0,
            defs,
            Seq::empty(),
            Seq::empty(),
            c1.insert(path),
            c2.insert(path),
        );
    }
}

/// The line-scan form of [`lemma_chain_shrink_module`].
pub proof fn lemma_chain_shrink_lines(
    store: Map<Seq<char>, Seq<char>>,
    lines: Seq<Seq<char>>,
    i: int,
    defs: Defs,
    stack: crate::process::Guards,
    out: Seq<char>,
    c1: Set<Seq<char>>,
    c2: Set<Seq<char>>,
)
    requires
        chain_ok(store, c1),
        c2.subset_of(c1),
        0 <= i <= lines.len(),
        process_lines(store, lines, i, defs, stack, out, c1) is Ok,
    ensures
        process_lines(store, lines, i, defs, stack, out, c2) == process_lines(
            store,
            lines,
            i,
            defs,
            stack,
            out,
            c1,
        ),
    decreases store.dom().len() - c1.len(), 2int, lines.len() - i, 0int,
{
    vstd::set_lib::lemma_len_subset(c2, store.dom());
    if i >= lines.len() {
    } else {
        let line = lines[i];
        let toks = tokens_of(line);
        let direct = crate::process::anchored(line) && toks.len() > 0;
        if direct && toks[0] == endif_word() {
            if toks.len() == 1 && stack.len() > 0 {
                lemma_chain_shrink_lines(
                    store,
                    lines,
                    i + 1,
                    defs,
                    stack.drop_last(),
                    out,
                    c1,
                    c2,
                );
            }
        } else if direct && toks[0] == else_word() {
            if toks.len() == 1 && stack.len() > 0 {
                lemma_chain_shrink_lines(
                    store,
                    lines,
                    i + 1,
                    defs,
                    stack.update(stack.len() - 1, (stack.last().0, !stack.last().1)),
                    out,
                    c1,
                    c2,
                );
            }
        } else if direct && toks[0] == undef_word() {
            if toks.len() == 2 && defs_contains(defs, toks[1]) {
                lemma_chain_shrink_lines(
                    store,
                    lines,
                    i + 1,
                    crate::table::defs_remove(defs, toks[1]),
                    stack,
                    out,
                    c1,
                    c2,
                );
            }
        } else if direct && (toks[0] == ifdef_word() || toks[0] == ifndef_word()) {
            if toks.len() == 2 {
                lemma_chain_shrink_lines(
                    store,
                    lines,
                    i + 1,
                    defs,
                    stack.push((toks[1], toks[0] == ifdef_word())),
                    out,
                    c1,
                    c2,
                );
            }
        } else if !crate::process::guards_hold(defs, stack) {
            lemma_chain_shrink_lines(store, lines, i + 1, defs, stack, out, c1, c2);
        } else if direct && toks[0] == reference_word() {
            let r1 = process_references(store, toks.drop_first(), 0, defs, c1);
            if r1 is Ok {
                lemma_chain_shrink_references(store, toks.drop_first(), 0, defs, c1, c2);
                lemma_chain_shrink_lines(
                    store,
                    lines,
                    i + 1,
                    r1->Ok_0.1,
                    stack,
                    out + r1->Ok_0.0,
                    c1,
                    c2,
                );
            }
        } else if direct && toks[0] == define_word() {
            if toks.len() == 2 {
                if !defs_contains(defs, toks[1]) {
                    lemma_chain_shrink_lines(
                        store,
                        lines,
                        i + 1,
                        crate::table::defs_insert(defs, toks[1], None),
                        stack,
                        out,
                        c1,
                        c2,
                    );
                } else {
                    lemma_chain_shrink_lines(
                        store,
                        lines,
                        i + 1,
                        defs,
                        stack,
                        out + toks[1] + seq!['\n'],
                        c1,
                        c2,
                    );
                }
            } else if toks.len() >= 3 {
                lemma_chain_shrink_lines(
                    store,
                    lines,
                    i + 1,
                    crate::table::defs_insert(
                        defs,
                        toks[1],
                        Some(crate::process::define_value(line)),
                    ),
                    stack,
                    out,
                    c1,
                    c2,
                );
            }
        } else {
            lemma_chain_shrink_lines(
                store,
                lines,
                i + 1,
                defs,
                stack,
                out + line + seq!['\n'],
                c1,
                c2,
            );
        }
    }
}

/// The reference-list form of [`lemma_chain_shrink_module`].
pub proof fn lemma_chain_shrink_references(
    store: Map<Seq<char>, Seq<char>>,
    paths: Seq<Seq<char>>,
    j: int,
    defs: Defs,
    c1: Set<Seq<char>>,
    c2: Set<Seq<char>>,
)
    requires
        chain_ok(store, c1),
        c2.subset_of(c1),
        0 <= j <= paths.len(),
        process_references(store, paths, j, defs, c1) is Ok,
    ensures
        process_references(store, paths, j, defs, c2) == process_references(
            store,
            paths,
            j,
            defs,
            c1,
        ),
    decreases store.dom().len() - c1.len(), 1int, 0int, paths.len() - j,
{
    vstd::set_lib::lemma_len_subset(c2, store.dom());
    if j < paths.len() && !c1.contains(paths[j]) {
        let rm = process_module(store, paths[j], defs, c1);
        if rm is Ok {
            lemma_chain_shrink_module(store, paths[j], defs, c1, c2);
            lemma_chain_shrink_references(store, paths, j + 1, rm->Ok_0.1, c1, c2);
        }
    }
}

/// Two wrapping levels compose: a root referencing a middle module that in
/// turn references the target builds to exactly the target's own build, so
/// reference depth never changes the emitted text. Deeper nestings follow
/// by chaining [`lemma_nested_build_equals_flat`] the same way.
pub proof fn lemma_reference_depth_two(b: BuilderV, mid: Seq<char>, target: Seq<char>)
    requires
        b.store.dom().finite(),
        b.store.dom().contains(b.path),
        b.store.dom().contains(mid),
        word_token(mid),
        word_token(target),
        b.path != mid,
        b.path != target,
        mid != target,
        b.store[b.path] == reference_word() + seq![' '] + mid + seq!['\n'],
        b.store[mid] == reference_word() + seq![' '] + target + seq!['\n'],
        process_module(b.store, target, b.defs, Set::empty().insert(b.path).insert(mid)) is Ok,
    ensures
        built_source(b) == built_source(BuilderV { path: target, defs: b.defs, store: b.store }),
        built_source(b) == built_source(BuilderV { path: mid, defs: b.defs, store: b.store }),
{
    broadcast use vstd::set::axiom_set_insert_len;

    let empty = Set::<Seq<char>>::empty();
    let c1 = empty.insert(b.path);
    let c12 = c1.insert(mid);
    vstd::set_lib::lemma_len_subset(c12, b.store.dom());
    lemma_reference_transparent(b.store, mid, target, b.defs, c1);
    lemma_nested_build_equals_flat(b, mid);
    lemma_chain_shrink_module(b.store, target, b.defs, c12, empty.insert(mid));
    lemma_nested_build_equals_flat(
        BuilderV { path: mid, defs: b.defs, store: b.store },
        target,
    );
}

/// A table of bare flags: no entry carries replacement text.
pub open spec fn flags_only(defs: Defs) -> bool {
    forall|k: int| 0 <= k < defs.len() ==> defs[k].1 is None
}

proof fn lemma_flags_only_subst_from(text: Seq<char>, defs: Defs, k: int)
    requires
        flags_only(defs),
        0 <= k <= defs.len(),
    ensures
        crate::table::subst_from(text, defs, k) == text,
    decreases defs.len() - k,
{
    if k < defs.len() {
        lemma_flags_only_subst_from(text, defs, k + 1);
    }
}

/// Substitution over a table of bare flags changes nothing.
pub proof fn lemma_flags_only_substitution(text: Seq<char>, defs: Defs)
    requires
        flags_only(defs),
    ensures
        substituted(text, defs) == text,
{
    lemma_flags_only_subst_from(text, defs, 0);
}

/// The build-level reading of reference transparency: a root module whose
/// single line references another module builds to exactly what building
/// that module as the root does, whatever the nesting depth.
pub proof fn lemma_nested_build_equals_flat(b: BuilderV, target: Seq<char>)
    requires
        b.store.dom().finite(),
        b.store.dom().contains(b.path),
        word_token(target),
        target != b.path,
        b.store[b.path] == reference_word() + seq![' '] + target + seq!['\n'],
        process_module(b.store, target, b.defs, Set::empty().insert(b.path)) is Ok,
    ensures
        built_source(b) == built_source(BuilderV { path: target, defs: b.defs, store: b.store }),
{
    broadcast use vstd::set::axiom_set_insert_len;

    let empty = Set::<Seq<char>>::empty();
    assert(empty.finite()) by {
        assert(empty =~= Set::<Seq<char>>::empty());
    }
    lemma_reference_transparent(b.store, b.path, target, b.defs, empty);
    lemma_chain_shrink_module(b.store, target, b.defs, empty.insert(b.path), empty);
}

/// The build-level reading of the concatenation law: when referencing A
/// then B from the root, with A and B each building cleanly and no valued
/// macros anywhere, the built source is exactly A's built source followed
/// by B's. The flags-only condition is what the law needs: a valued macro
/// substitutes over the concatenated text, so an occurrence of its name
/// straddling the boundary — A's text ending `ON`, B's opening `E`, with a
/// macro named `ONE` — is replaced in the root's build but in neither
/// build alone.
pub proof fn lemma_build_concatenates(
    b: BuilderV,
    a: Seq<char>,
    c: Seq<char>,
    text_a: Seq<char>,
    text_c: Seq<char>,
    defs_c: Defs,
)
    requires
        b.store.dom().finite(),
        b.store.dom().contains(b.path),
        word_token(a),
        word_token(c),
        a != b.path,
        c != b.path,
        b.store[b.path] == reference_word() + seq![' '] + a + seq![' '] + c + seq!['\n'],
        process_module(b.store, a, b.defs, Set::empty().insert(b.path)) == Ok::<
            (Seq<char>, Defs),
            SpecError,
        >((text_a, b.defs)),
        process_module(b.store, c, b.defs, Set::empty().insert(b.path)) == Ok::<
            (Seq<char>, Defs),
            SpecError,
        >((text_c, defs_c)),
        flags_only(b.defs),
        flags_only(defs_c),
    ensures
        built_source(b) == Ok::<Seq<char>, SpecError>(text_a + text_c),
        built_source(BuilderV { path: a, defs: b.defs, store: b.store }) == Ok::<
            Seq<char>,
            SpecError,
        >(text_a),
        built_source(BuilderV { path: c, defs: b.defs, store: b.store }) == Ok::<
            Seq<char>,
            SpecError,
        >(text_c),
{
    broadcast use vstd::set::axiom_set_insert_len;

    let empty = Set::<Seq<char>>::empty();
    lemma_reference_concat_independent(
        b.store,
        b.path,
        a,
        c,
        b.defs,
        empty,
        text_a,
        text_c,
        defs_c,
    );
    lemma_chain_shrink_module(b.store, a, b.defs, empty.insert(b.path), empty);
    lemma_chain_shrink_module(b.store, c, b.defs, empty.insert(b.path), empty);
    lemma_flags_only_substitution(text_a + text_c, defs_c);
    lemma_flags_only_substitution(text_a, b.defs);
    lemma_flags_only_substitution(text_c, defs_c);
}

/// The lines rejoined: each line followed by one line feed.
pub open spec fn joined_lines(ls: Seq<Seq<char>>) -> Seq<char>
    decreases ls.len(),
{
    if ls.len() == 0 {
        Seq::empty()
    } else {
        ls[0] + seq!['\n'] + joined_lines(ls.drop_first())
    }
}

/// No line feed stands before the next line break.
proof fn lemma_line_break_clear(s: Seq<char>, i: int)
    requires
        0 <= i <= s.len(),
    ensures
        forall|j: int| i <= j < crate::text::line_break(s, i) ==> s[j] != '\n',
    decreases s.len() - i,
{
    if i < s.len() && s[i] != '\n' {
        lemma_line_break_clear(s, i + 1);
    }
}

/// Splitting a text into lines and rejoining them gives the text back,
/// provided it ends with a line feed and holds no carriage return.
pub proof fn lemma_lines_roundtrip(text: Seq<char>)
    requires
        text.len() > 0 ==> text.last() == '\n',
        forall|k: int| 0 <= k < text.len() ==> text[k] != '\r',
    ensures
        joined_lines(lines_of(text)) == text,
    decreases text.len(),
{
    if text.len() > 0 {
        let e = crate::text::line_break(text, 0);
        crate::text::lemma_line_break_bounds(text, 0);
        lemma_line_break_clear(text, 0);
        assert(e < text.len()) by {
            if e == text.len() {
                assert(text[text.len() - 1] != '\n');
            }
        }
        let first = text.subrange(0, e);
        assert(crate::text::strip_cr(first) == first);
        let rest = text.skip(e + 1);
        crate::text::lemma_lines_from_skip(text, e + 1);
        assert(lines_of(text) == seq![first] + lines_of(rest));
        assert(rest.len() > 0 ==> rest.last() == '\n') by {
            if rest.len() > 0 {
                assert(rest.last() == text.last());
            }
        }
        lemma_lines_roundtrip(rest);
        assert((seq![first] + lines_of(rest)).drop_first() =~= lines_of(rest));
        assert((seq![first] + lines_of(rest))[0] == first);
        assert(joined_lines(lines_of(text)) == first + seq!['\n'] + rest);
        assert(first + seq!['\n'] + rest =~= text);
    } else {
        assert(lines_of(text) =~= Seq::<Seq<char>>::empty());
    }
}

/// A module of nothing but ordinary text lines scans to those lines
/// rejoined, and touches neither the macro table nor the guard stack.
pub proof fn lemma_plain_lines_process(
    store: Map<Seq<char>, Seq<char>>,
    lines: Seq<Seq<char>>,
    i: int,
    defs: Defs,
    out: Seq<char>,
    chain: Set<Seq<char>>,
)
    requires
        chain_ok(store, chain),
        0 <= i <= lines.len(),
        forall|k: int| 0 <= k < lines.len() ==> plain_line(#[trigger] lines[k]),
    ensures
        process_lines(store, lines, i, defs, Seq::empty(), out, chain) == Ok::<
            (Seq<char>, Defs),
            SpecError,
        >((out + joined_lines(lines.skip(i)), defs)),
    decreases lines.len() - i,
{
    let empty_stack = Seq::<(Seq<char>, bool)>::empty();
    if i >= lines.len() {
        assert(lines.skip(i) =~= Seq::<Seq<char>>::empty());
        assert(out + joined_lines(lines.skip(i)) =~= out);
    } else {
        lemma_plain_lines_process(store, lines, i + 1, defs, out + lines[i] + seq!['\n'], chain);
        assert(lines.skip(i).drop_first() =~= lines.skip(i + 1));
        assert(lines.skip(i)[0] == lines[i]);
        assert(joined_lines(lines.skip(i)) == lines[i] + seq!['\n'] + joined_lines(
            lines.skip(i + 1),
        ));
        assert((out + lines[i] + seq!['\n']) + joined_lines(lines.skip(i + 1)) =~= out
            + joined_lines(lines.skip(i)));
    }
}

/// A constant put into a fresh builder is substituted at every occurrence
/// of its name in a module of ordinary text, whole-string and unscoped —
/// occurrences inside longer identifiers included: the built source is
/// exactly the module text with the name replaced throughout. The text must
/// end with a line feed (the line scanner supplies one otherwise) and hold
/// no carriage return (which it would strip).
pub proof fn lemma_constant_substitutes_everywhere(
    b: BuilderV,
    name: Seq<char>,
    rep: Seq<char>,
)
    requires
        b.store.dom().finite(),
        b.store.dom().contains(b.path),
        b.defs == seq![(name, Some(rep))],
        forall|k: int|
            0 <= k < lines_of(b.store[b.path]).len() ==> plain_line(
                #[trigger] lines_of(b.store[b.path])[k],
            ),
        b.store[b.path].len() > 0 ==> b.store[b.path].last() == '\n',
        forall|k: int| 0 <= k < b.store[b.path].len() ==> b.store[b.path][k] != '\r',
    ensures
        built_source(b) == Ok::<Seq<char>, SpecError>(
            crate::table::replace_text(b.store[b.path], name, rep),
        ),
{
    broadcast use vstd::set::axiom_set_insert_len;

    let text = b.store[b.path];
    let empty = Set::<Seq<char>>::empty();
    let chain = empty.insert(b.path);
    vstd::set_lib::lemma_len_subset(chain, b.store.dom());
    lemma_plain_lines_process(b.store, lines_of(text), 0, b.defs, Seq::empty(), chain);
    assert(lines_of(text).skip(0) =~= lines_of(text));
    lemma_lines_roundtrip(text);
    assert(Seq::<char>::empty() + joined_lines(lines_of(text)) =~= text);
    assert(process_module(b.store, b.path, b.defs, empty) == Ok::<(Seq<char>, Defs), SpecError>(
        (text, b.defs),
    ));
    assert(crate::table::subst_from(crate::table::replace_text(text, name, rep), b.defs, 1)
        == crate::table::replace_text(text, name, rep));
    assert(substituted(text, b.defs) == crate::table::replace_text(text, name, rep));
}

/// `ifndef` is the logical negation of `ifdef`: over two macro tables that
/// agree on whether `x` is defined, the `ifdef` module emits its first
/// block exactly when the `ifndef` module emits its `else` block, and the
/// other way round.
pub proof fn lemma_ifndef_negates_ifdef(
    store_d: Map<Seq<char>, Seq<char>>,
    path_d: Seq<char>,
    store_n: Map<Seq<char>, Seq<char>>,
    path_n: Seq<char>,
    x: Seq<char>,
    p: Seq<char>,
    q: Seq<char>,
    defs_d: Defs,
    defs_n: Defs,
    chain_d: Set<Seq<char>>,
    chain_n: Set<Seq<char>>,
)
    requires
        chain_ok(store_d, chain_d),
        store_d.dom().contains(path_d),
        !chain_d.contains(path_d),
        chain_ok(store_n, chain_n),
        store_n.dom().contains(path_n),
        !chain_n.contains(path_n),
        word_token(x),
        plain_line(p),
        plain_line(q),
        defs_contains(defs_d, x) == defs_contains(defs_n, x),
        store_d[path_d] == ifdef_word() + seq![' '] + x + seq!['\n'] + p + seq!['\n']
            + else_word() + seq!['\n'] + q + seq!['\n'] + endif_word() + seq!['\n'],
        store_n[path_n] == ifndef_word() + seq![' '] + x + seq!['\n'] + p + seq!['\n']
            + else_word() + seq!['\n'] + q + seq!['\n'] + endif_word() + seq!['\n'],
    ensures
        process_module(store_d, path_d, defs_d, chain_d) == Ok::<(Seq<char>, Defs), SpecError>(
            (
                (if defs_contains(defs_d, x) {
                    p
                } else {
                    q
                }) + seq!['\n'],
                defs_d,
            ),
        ),
        process_module(store_n, path_n, defs_n, chain_n) == Ok::<(Seq<char>, Defs), SpecError>(
            (
                (if defs_contains(defs_n, x) {
                    q
                } else {
                    p
                }) + seq!['\n'],
                defs_n,
            ),
        ),
{
    lemma_conditional_block(store_d, path_d, x, p, q, defs_d, chain_d, true);
    lemma_conditional_block(store_n, path_n, x, p, q, defs_n, chain_n, false);
}

} // verus!

