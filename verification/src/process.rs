//! The directive processor: the line scanner that turns one module's raw
//! text into processed text, resolving references to other modules, managing
//! the conditional-compilation stack, and recording macro definitions.
//!
//! The semantics is given by the specification interpreter
//! [`process_module`] / [`process_lines`] / [`process_references`]; the
//! executable [`load_module`] is proved to return exactly what the
//! interpreter says. Modules come from a [`ModuleStore`], a mapping from
//! path to raw text that the caller fills before a build; recursion into
//! referenced modules is bounded by rejecting reference cycles.

use vstd::prelude::*;
use vstd::set_lib::lemma_len_subset;

use crate::table::{defs_contains, defs_insert, defs_remove, Defs, MacroTable};
use crate::text::{
    append_chars, chars_eq, chars_eq_str, chars_string, is_space, lines_of, skip_spaces,
    skip_spaces_at, split_lines, subvec, texts_view, token_end, token_end_at, tokenize, tokens_of,
};

verus! {

/// The store of module sources available to one build: raw text by path.
pub struct ModuleStore {
    entries: Vec<(Vec<char>, Vec<char>)>,
}

/// The views of the stored (path, text) pairs.
pub open spec fn pairs_view(s: Seq<(Vec<char>, Vec<char>)>) -> Seq<(Seq<char>, Seq<char>)> {
    s.map_values(|e: (Vec<char>, Vec<char>)| (e.0@, e.1@))
}

/// The mapping a sequence of (path, text) pairs denotes.
pub open spec fn store_map(s: Seq<(Seq<char>, Seq<char>)>) -> Map<Seq<char>, Seq<char>>
    decreases s.len(),
{
    if s.len() == 0 {
        Map::empty()
    } else {
        store_map(s.drop_last()).insert(s.last().0, s.last().1)
    }
}

pub proof fn lemma_store_map_dom(s: Seq<(Seq<char>, Seq<char>)>)
    ensures
        store_map(s).dom().finite(),
        forall|p: Seq<char>|
            store_map(s).dom().contains(p) <==> exists|k: int| 0 <= k < s.len() && s[k].0 == p,
    decreases s.len(),
{
    if s.len() > 0 {
        lemma_store_map_dom(s.drop_last());
        assert forall|p: Seq<char>| store_map(s).dom().contains(p) implies exists|k: int|
            0 <= k < s.len() && s[k].0 == p by {
            if p == s.last().0 {
                assert(s[s.len() - 1].0 == p);
            } else {
                let k = choose|k: int| 0 <= k < s.len() - 1 && s.drop_last()[k].0 == p;
                assert(s[k].0 == p);
            }
        }
        assert forall|p: Seq<char>|
            (exists|k: int| 0 <= k < s.len() && s[k].0 == p) implies store_map(
            s,
        ).dom().contains(p) by {
            let k = choose|k: int| 0 <= k < s.len() && s[k].0 == p;
            if k < s.len() - 1 {
                assert(s.drop_last()[k].0 == p);
            }
        }
    }
}

impl View for ModuleStore {
    type V = Map<Seq<char>, Seq<char>>;

    closed spec fn view(&self) -> Map<Seq<char>, Seq<char>> {
        store_map(pairs_view(self.entries@))
    }
}

impl ModuleStore {
    pub fn new() -> (r: ModuleStore)
        ensures
            r@ == Map::<Seq<char>, Seq<char>>::empty(),
    {
        ModuleStore { entries: Vec::new() }
    }

    /// Stores `text` under `path`; a later text for one path wins.
    pub fn insert(&mut self, path: Vec<char>, text: Vec<char>)
        ensures
            final(self)@ == old(self)@.insert(path@, text@),
    {
        let ghost old_entries = self.entries@;
        self.entries.push((path, text));
        proof {
            assert(pairs_view(self.entries@).drop_last() =~= pairs_view(old_entries));
        }
    }

    /// The mapping a store denotes covers finitely many paths.
    pub proof fn lemma_dom_finite(&self)
        ensures
            self@.dom().finite(),
    {
        lemma_store_map_dom(pairs_view(self.entries@));
    }

    /// The stored text under `path`, when there is one.
    pub fn get(&self, path: &Vec<char>) -> (r: Option<&Vec<char>>)
        ensures
            match r {
                Some(t) => self@.dom().contains(path@) && t@ == self@[path@],
                None => !self@.dom().contains(path@),
            },
    {
        proof {
            lemma_store_map_dom(pairs_view(self.entries@));
        }
        let mut k: usize = self.entries.len();
        while k > 0
            invariant
                k <= self.entries@.len(),
                forall|j: int| k <= j < self.entries@.len() ==> self.entries@[j].0@ != path@,
            decreases k,
    {
            k = k - 1;
            if chars_eq(&self.entries[k].0, path) {
                proof {
                    let s = pairs_view(self.entries@);
                    assert(s[k as int].0 == path@);
                    assert(forall|j: int| k < j < s.len() ==> s[j].0 != path@);
                    lemma_store_map_dom(s);
                    assert(store_map(s).dom().contains(path@));
                    lemma_store_map_maps(s, path@);
                    let w = choose|w: int|
                        0 <= w < s.len() && s[w].0 == path@ && (forall|j: int|
                            w < j < s.len() ==> s[j].0 != path@) && store_map(s)[path@] == s[w].1;
                    assert(w == k as int);
                }
                return Some(&self.entries[k].1);
            }
        }
        None
    }
}

pub proof fn lemma_store_map_maps(s: Seq<(Seq<char>, Seq<char>)>, p: Seq<char>)
    ensures
        store_map(s).dom().contains(p) ==> exists|k: int|
            0 <= k < s.len() && s[k].0 == p && (forall|j: int|
                k < j < s.len() ==> s[j].0 != p) && store_map(s)[p] == s[k].1,
    decreases s.len(),
{
    if s.len() > 0 && store_map(s).dom().contains(p) {
        if p == s.last().0 {
            assert(s[s.len() - 1].0 == p && store_map(s)[p] == s[s.len() - 1].1);
        } else {
            lemma_store_map_maps(s.drop_last(), p);
            lemma_store_map_dom(s.drop_last());
            let k = choose|k: int|
                0 <= k < s.drop_last().len() && s.drop_last()[k].0 == p && (forall|j: int|
                    k < j < s.drop_last().len() ==> s.drop_last()[j].0 != p) && store_map(
                    s.drop_last(),
                )[p] == s.drop_last()[k].1;
            assert(s[k].0 == p && store_map(s)[p] == s[k].1);
            assert forall|j: int| k < j < s.len() implies s[j].0 != p by {
                if j < s.len() - 1 {
                    assert(s.drop_last()[j].0 != p);
                }
            }
        }
    }
}

/// The errors a build can end with.
#[derive(Debug)]
pub enum Error {
    /// A module path that the store does not hold.
    FileNotFound(String),
    /// A directive with the wrong number of arguments; carries the line.
    MalformedDirective(String),
    /// An `undef` of a name that is not currently defined.
    UndefinedSymbol(String),
    /// A stray `else` or `endif` with no open conditional.
    UnbalancedConditional,
    /// A conditional still open at the end of a module.
    UnterminatedConditional,
    /// A module that, directly or through others, references itself.
    CyclicReference(String),
}

/// The spec-level form of [`Error`], over character sequences.
pub ghost enum SpecError {
    FileNotFound(Seq<char>),
    MalformedDirective(Seq<char>),
    UndefinedSymbol(Seq<char>),
    UnbalancedConditional,
    UnterminatedConditional,
    CyclicReference(Seq<char>),
}

impl View for Error {
    type V = SpecError;

    open spec fn view(&self) -> SpecError {
        match self {
            Error::FileNotFound(p) => SpecError::FileNotFound(p@),
            Error::MalformedDirective(l) => SpecError::MalformedDirective(l@),
            Error::UndefinedSymbol(n) => SpecError::UndefinedSymbol(n@),
            Error::UnbalancedConditional => SpecError::UnbalancedConditional,
            Error::UnterminatedConditional => SpecError::UnterminatedConditional,
            Error::CyclicReference(p) => SpecError::CyclicReference(p@),
        }
    }
}

impl Error {
    /// A short description of the error, with its path, name or line.
    pub fn describe(&self) -> String {
        match self {
            Error::FileNotFound(p) => {
                let mut s = String::new();
                s.append("module not found: ");
                s.append(p.as_str());
                s
            },
            Error::MalformedDirective(l) => {
                let mut s = String::new();
                s.append("wrong number of arguments in directive: ");
                s.append(l.as_str());
                s
            },
            Error::UndefinedSymbol(n) => {
                let mut s = String::new();
                s.append("undef of an undefined name: ");
                s.append(n.as_str());
                s
            },
            Error::UnbalancedConditional => {
                String::from_str("else or endif with no open conditional")
            },
            Error::UnterminatedConditional => {
                String::from_str("conditional still open at end of module")
            },
            Error::CyclicReference(p) => {
                let mut s = String::new();
                s.append("module references itself: ");
                s.append(p.as_str());
                s
            },
        }
    }
}

/// The conditional-compilation stack: each entry names a macro and whether
/// it must be defined for the guarded block to be relevant.
pub type Guards = Seq<(Seq<char>, bool)>;

/// The views of the guard entries held by the executable stack.
pub open spec fn guards_view(s: Seq<(Vec<char>, bool)>) -> Guards {
    s.map_values(|g: (Vec<char>, bool)| (g.0@, g.1))
}

/// A line is relevant when every guard on the stack matches the current
/// defined-ness of its macro; the table is consulted fresh, never a
/// snapshot.
pub open spec fn guards_hold(defs: Defs, stack: Guards) -> bool {
    forall|k: int| 0 <= k < stack.len() ==> defs_contains(defs, stack[k].0) == stack[k].1
}

/// The directive announcing the end of a conditional block.
pub open spec fn endif_word() -> Seq<char> {
    "//!endif"@
}

/// The directive flipping the open conditional's polarity.
pub open spec fn else_word() -> Seq<char> {
    "//!else"@
}

/// The directive removing a macro.
pub open spec fn undef_word() -> Seq<char> {
    "//!undef"@
}

/// The directive opening a block guarded on a defined name.
pub open spec fn ifdef_word() -> Seq<char> {
    "//!ifdef"@
}

/// The directive opening a block guarded on an undefined name.
pub open spec fn ifndef_word() -> Seq<char> {
    "//!ifndef"@
}

/// The directive inlining other modules' processed text.
pub open spec fn reference_word() -> Seq<char> {
    "//!include"@
}

/// The directive defining a macro.
pub open spec fn define_word() -> Seq<char> {
    "//!define"@
}

/// The replacement text of a valued `define` line: everything after the one
/// separator character that follows the macro name.
pub open spec fn define_value(line: Seq<char>) -> Seq<char> {
    let e1 = token_end(line, skip_spaces(line, 0));
    let e2 = token_end(line, skip_spaces(line, e1));
    line.subrange(e2 + 1, line.len() as int)
}

/// The side conditions threaded through the interpreter: the set of module
/// paths already being processed is finite and drawn from the store.
pub open spec fn chain_ok(store: Map<Seq<char>, Seq<char>>, chain: Set<Seq<char>>) -> bool {
    store.dom().finite() && chain.finite() && chain.subset_of(store.dom())
}

/// Processes the module stored under `path`: looks its text up, scans its
/// lines from a fresh conditional stack, and yields the processed text and
/// the macro table as it stands afterwards. `chain` holds the paths already
/// being processed further up the recursion.
pub open spec fn process_module(
    store: Map<Seq<char>, Seq<char>>,
    path: Seq<char>,
    defs: Defs,
    chain: Set<Seq<char>>,
) -> Result<(Seq<char>, Defs), SpecError>
    decreases store.dom().len() - chain.len(), 0int, 0int, 0int
        when chain_ok(store, chain) && !chain.contains(path)
        via process_module_decreases
{
    if !store.dom().contains(path) {
        Err(SpecError::FileNotFound(path))
    } else {
        process_lines(
            store,
            lines_of(store[path]),
            0,
            defs,
            Seq::empty(),
            Seq::empty(),
            chain.insert(path),
        )
    }
}

#[via_fn]
proof fn process_module_decreases(
    store: Map<Seq<char>, Seq<char>>,
    path: Seq<char>,
    defs: Defs,
    chain: Set<Seq<char>>,
) {
    broadcast use vstd::set::axiom_set_insert_len;

    if store.dom().contains(path) {
        lemma_len_subset(chain.insert(path), store.dom());
    }
}

/// Whether a line may be a directive: directives are line-anchored, so a
/// line opening with whitespace is always ordinary text.
pub open spec fn anchored(line: Seq<char>) -> bool {
    line.len() > 0 && !is_space(line[0])
}

/// Scans the lines of one module from index `i` on, with the current macro
/// table `defs`, conditional stack `stack`, and accumulated output `out`.
///
/// A directive is recognized only at the very start of its line. Per line,
/// in priority order: `endif` pops and `else` flips the stack, `undef`
/// removes its name, and `ifdef`/`ifndef` push a guard — all four whatever
/// the guards currently say, so that every `endif` pops its lexical partner
/// even inside a block that is not relevant; an irrelevant line is then
/// skipped; a reference line inlines the named modules, `define` records a
/// macro (or, for a name already defined, emits the bare name as a
/// placeholder), and any other line is output verbatim. A directive given
/// arguments it does not take (`else`, `endif`) or lacking its one name
/// (`undef`, `ifdef`, `ifndef`, `define`) is malformed, relevant or not. A
/// conditional still open at the end of the lines is an error.
pub open spec fn process_lines(
    store: Map<Seq<char>, Seq<char>>,
    lines: Seq<Seq<char>>,
    i: int,
    defs: Defs,
    stack: Guards,
    out: Seq<char>,
    chain: Set<Seq<char>>,
) -> Result<(Seq<char>, Defs), SpecError>
    decreases store.dom().len() - chain.len(), 2int, lines.len() - i, 0int
        when chain_ok(store, chain) && 0 <= i <= lines.len()
        via process_lines_decreases
{
    if i >= lines.len() {
        if stack.len() == 0 {
            Ok((out, defs))
        } else {
            Err(SpecError::UnterminatedConditional)
        }
    } else {
        let line = lines[i];
        let toks = tokens_of(line);
        if anchored(line) && toks.len() > 0 && toks[0] == endif_word() {
            if toks.len() != 1 {
                Err(SpecError::MalformedDirective(line))
            } else if stack.len() == 0 {
                Err(SpecError::UnbalancedConditional)
            } else {
                process_lines(store, lines, i + 1, defs, stack.drop_last(), out, chain)
            }
        } else if anchored(line) && toks.len() > 0 && toks[0] == else_word() {
            if toks.len() != 1 {
                Err(SpecError::MalformedDirective(line))
            } else if stack.len() == 0 {
                Err(SpecError::UnbalancedConditional)
            } else {
                process_lines(
                    store,
                    lines,
                    i + 1,
                    defs,
                    stack.update(stack.len() - 1, (stack.last().0, !stack.last().1)),
                    out,
                    chain,
                )
            }
        } else if anchored(line) && toks.len() > 0 && toks[0] == undef_word() {
            if toks.len() != 2 {
                Err(SpecError::MalformedDirective(line))
            } else if !defs_contains(defs, toks[1]) {
                Err(SpecError::UndefinedSymbol(toks[1]))
            } else {
                process_lines(store, lines, i + 1, defs_remove(defs, toks[1]), stack, out, chain)
            }
        } else if anchored(line) && toks.len() > 0 && (toks[0] == ifdef_word() || toks[0]
            == ifndef_word()) {
            if toks.len() != 2 {
                Err(SpecError::MalformedDirective(line))
            } else {
                process_lines(
                    store,
                    lines,
                    i + 1,
                    defs,
                    stack.push((toks[1], toks[0] == ifdef_word())),
                    out,
                    chain,
                )
            }
        } else if !guards_hold(defs, stack) {
            process_lines(store, lines, i + 1, defs, stack, out, chain)
        } else if anchored(line) && toks.len() > 0 && toks[0] == reference_word() {
            match process_references(store, toks.drop_first(), 0, defs, chain) {
                Err(e) => Err(e),
                Ok((txt, defs2)) => process_lines(store, lines, i + 1, defs2, stack, out + txt, chain),
            }
        } else if anchored(line) && toks.len() > 0 && toks[0] == define_word() {
            if toks.len() == 1 {
                Err(SpecError::MalformedDirective(line))
            } else if toks.len() == 2 {
                if !defs_contains(defs, toks[1]) {
                    process_lines(
                        store,
                        lines,
                        i + 1,
                        defs_insert(defs, toks[1], None),
                        stack,
                        out,
                        chain,
                    )
                } else {
                    process_lines(store, lines, i + 1, defs, stack, out + toks[1] + seq!['\n'], chain)
                }
            } else {
                process_lines(
                    store,
                    lines,
                    i + 1,
                    defs_insert(defs, toks[1], Some(define_value(line))),
                    stack,
                    out,
                    chain,
                )
            }
        } else {
            process_lines(store, lines, i + 1, defs, stack, out + line + seq!['\n'], chain)
        }
    }
}

#[via_fn]
proof fn process_lines_decreases(
    store: Map<Seq<char>, Seq<char>>,
    lines: Seq<Seq<char>>,
    i: int,
    defs: Defs,
    stack: Guards,
    out: Seq<char>,
    chain: Set<Seq<char>>,
) {
}

/// Processes the modules named on one reference line, from argument `j` on,
/// in order: each must not already be in progress, and each is processed
/// with the table as the previous one left it. Yields the concatenation of
/// their processed texts.
pub open spec fn process_references(
    store: Map<Seq<char>, Seq<char>>,
    paths: Seq<Seq<char>>,
    j: int,
    defs: Defs,
    chain: Set<Seq<char>>,
) -> Result<(Seq<char>, Defs), SpecError>
    decreases store.dom().len() - chain.len(), 1int, 0int, paths.len() - j
        when chain_ok(store, chain) && 0 <= j <= paths.len()
        via process_references_decreases
{
    if j >= paths.len() {
        Ok((Seq::empty(), defs))
    } else if chain.contains(paths[j]) {
        Err(SpecError::CyclicReference(paths[j]))
    } else {
        match process_module(store, paths[j], defs, chain) {
            Err(e) => Err(e),
            Ok((txt, defs2)) => match process_references(store, paths, j + 1, defs2, chain) {
                Err(e) => Err(e),
                Ok((txt2, defs3)) => Ok((txt + txt2, defs3)),
            },
        }
    }
}

#[via_fn]
proof fn process_references_decreases(
    store: Map<Seq<char>, Seq<char>>,
    paths: Seq<Seq<char>>,
    j: int,
    defs: Defs,
    chain: Set<Seq<char>>,
) {
}

/// The rest of a line scan once its reference line's result is known:
/// an error aborts, a success appends the inlined text and continues.
pub open spec fn after_references(
    store: Map<Seq<char>, Seq<char>>,
    lines: Seq<Seq<char>>,
    i: int,
    stack: Guards,
    out: Seq<char>,
    chain: Set<Seq<char>>,
    r: Result<(Seq<char>, Defs), SpecError>,
) -> Result<(Seq<char>, Defs), SpecError> {
    match r {
        Ok(p) => process_lines(store, lines, i + 1, p.1, stack, out + p.0, chain),
        Err(e) => Err(e),
    }
}

/// Whether every guard on the stack matches the table's current state.
fn relevant(stack: &Vec<(Vec<char>, bool)>, table: &MacroTable) -> (r: bool)
    ensures
        r == guards_hold(table@, guards_view(stack@)),
{
    let ghost gv = guards_view(stack@);
    let mut k: usize = 0;
    while k < stack.len()
        invariant
            k <= stack@.len(),
            gv == guards_view(stack@),
            gv.len() == stack@.len(),
            forall|j: int| 0 <= j < k ==> defs_contains(table@, gv[j].0) == gv[j].1,
        decreases stack@.len() - k,
    {
        let defined = table.contains(&stack[k].0);
        proof {
            assert(gv[k as int] == (stack@[k as int].0@, stack@[k as int].1));
        }
        if defined != stack[k].1 {
            return false;
        }
        k = k + 1;
    }
    true
}

/// Whether the text of `p` stands among the views of `chain`.
fn chain_contains(chain: &Vec<Vec<char>>, p: &Vec<char>) -> (r: bool)
    ensures
        r == texts_view(chain@).contains(p@),
{
    let mut k: usize = 0;
    while k < chain.len()
        invariant
            k <= chain@.len(),
            forall|j: int| 0 <= j < k ==> texts_view(chain@)[j] != p@,
        decreases chain@.len() - k,
    {
        if chars_eq(&chain[k], p) {
            proof {
                assert(texts_view(chain@)[k as int] == p@);
            }
            return true;
        }
        k = k + 1;
    }
    proof {
        if texts_view(chain@).contains(p@) {
            let w = choose|w: int|
                0 <= w < texts_view(chain@).len() && texts_view(chain@)[w] == p@;
            assert(texts_view(chain@)[w] != p@);
        }
    }
    false
}

/// A copy of a vector of texts, view for view.
fn clone_texts(v: &Vec<Vec<char>>) -> (r: Vec<Vec<char>>)
    ensures
        texts_view(r@) == texts_view(v@),
{
    let mut out: Vec<Vec<char>> = Vec::new();
    let mut k: usize = 0;
    while k < v.len()
        invariant
            k <= v@.len(),
            out@.len() == k,
            forall|j: int| 0 <= j < k ==> texts_view(out@)[j] == texts_view(v@)[j],
        decreases v@.len() - k,
    {
        let c = subvec(&v[k], 0, v[k].len());
        proof {
            assert(c@ =~= v@[k as int]@);
        }
        out.push(c);
        k = k + 1;
    }
    proof {
        assert(texts_view(out@) =~= texts_view(v@));
    }
    out
}

/// Pushing one more text extends the set of texts by it.
proof fn lemma_to_set_push(s: Seq<Seq<char>>, e: Seq<char>)
    ensures
        s.push(e).to_set() == s.to_set().insert(e),
        !s.contains(e) && s.no_duplicates() ==> s.push(e).no_duplicates(),
{
    assert forall|x: Seq<char>| s.push(e).to_set().contains(x) implies s.to_set().insert(
        e,
    ).contains(x) by {
        let w = choose|w: int| 0 <= w < s.push(e).len() && s.push(e)[w] == x;
        if w < s.len() {
            assert(s[w] == x);
        }
    }
    assert forall|x: Seq<char>| s.to_set().insert(e).contains(x) implies s.push(
        e,
    ).to_set().contains(x) by {
        if x == e {
            assert(s.push(e)[s.len() as int] == x);
        } else {
            let w = choose|w: int| 0 <= w < s.len() && s[w] == x;
            assert(s.push(e)[w] == x);
        }
    }
    assert(s.push(e).to_set() =~= s.to_set().insert(e));
    if !s.contains(e) && s.no_duplicates() {
        assert forall|i: int, j: int| 0 <= i < j < s.push(e).len() implies s.push(e)[i] != s.push(
            e,
        )[j] by {
            if j == s.len() {
                assert(s[i] == s.push(e)[i]);
                if s.push(e)[i] == e {
                    assert(s.contains(e));
                }
            }
        }
    }
}

/// A character separating path segments or a file extension.
pub open spec fn is_sep(c: char) -> bool {
    c == '/' || c == '.'
}

/// The largest index of a separator strictly before `i`, or -1.
pub open spec fn last_sep_before(s: Seq<char>, i: int) -> int
    decreases i
        when 0 <= i <= s.len()
{
    if i <= 0 {
        -1
    } else if is_sep(s[i - 1]) {
        i - 1
    } else {
        last_sep_before(s, i - 1)
    }
}

pub proof fn lemma_last_sep_bounds(s: Seq<char>, i: int)
    requires
        0 <= i <= s.len(),
    ensures
        -1 <= last_sep_before(s, i) < i,
    decreases i,
{
    if i > 0 && !is_sep(s[i - 1]) {
        lemma_last_sep_bounds(s, i - 1);
    }
}

/// The label of a module: the text between the last two separators of its
/// path (the file name without its extension), or the whole path when it
/// has no separator.
pub open spec fn built_label(path: Seq<char>) -> Seq<char> {
    let e = last_sep_before(path, path.len() as int);
    if e < 0 {
        path
    } else {
        let b = last_sep_before(path, e);
        path.subrange(b + 1, e)
    }
}

/// The index of the last separator strictly before `i`, when there is one.
#[verifier::loop_isolation(false)]
fn sep_before(path: &Vec<char>, i: usize) -> (r: Option<usize>)
    requires
        i <= path@.len(),
    ensures
        match r {
            Some(j) => j == last_sep_before(path@, i as int) && j < i,
            None => last_sep_before(path@, i as int) == -1,
        },
{
    let mut k = i;
    while k > 0 && !(path[k - 1] == '/' || path[k - 1] == '.')
        invariant
            k <= i,
            last_sep_before(path@, i as int) == last_sep_before(path@, k as int),
        decreases k,
    {
        k = k - 1;
    }
    if k == 0 {
        None
    } else {
        Some(k - 1)
    }
}

/// The label of the module at `path`: the file name without its extension.
pub fn label_of_path(path: &Vec<char>) -> (r: String)
    ensures
        r@ == built_label(path@),
{
    match sep_before(path, path.len()) {
        None => chars_string(&subvec(path, 0, path.len())),
        Some(e) => {
            proof {
                lemma_last_sep_bounds(path@, e as int);
            }
            let start = match sep_before(path, e) {
                None => 0,
                Some(b) => b + 1,
            };
            chars_string(&subvec(path, start, e))
        },
    }
}

/// Processes the module stored under `path`, exactly as [`process_module`]
/// says: scans its lines, maintains the conditional stack, updates the macro
/// table through `define`/`undef`, and inlines referenced modules
/// recursively. `chain` holds the paths of the modules currently being
/// processed further up the recursion; referencing one of them again is
/// rejected as a cycle.
#[verifier::loop_isolation(false)]
pub fn load_module(
    store: &ModuleStore,
    path: &Vec<char>,
    table: &mut MacroTable,
    chain: &Vec<Vec<char>>,
) -> (r: Result<Vec<char>, Error>)
    requires
        old(table).wf(),
        store@.dom().finite(),
        texts_view(chain@).no_duplicates(),
        forall|k: int|
            0 <= k < chain@.len() ==> store@.dom().contains(#[trigger] texts_view(chain@)[k]),
        !texts_view(chain@).contains(path@),
    ensures
        final(table).wf(),
        match r {
            Ok(t) => process_module(store@, path@, old(table)@, texts_view(chain@).to_set())
                == Ok::<(Seq<char>, Defs), SpecError>((t@, final(table)@)),
            Err(e) => process_module(store@, path@, old(table)@, texts_view(chain@).to_set())
                == Err::<(Seq<char>, Defs), SpecError>(e@),
        },
    decreases store@.dom().len() - chain@.len(),
{
    let ghost defs0 = table@;
    let ghost cset = texts_view(chain@).to_set();
    proof {
        vstd::seq_lib::seq_to_set_is_finite(texts_view(chain@));
        assert forall|p: Seq<char>| cset.contains(p) implies store@.dom().contains(p) by {
            let w = choose|w: int|
                0 <= w < texts_view(chain@).len() && texts_view(chain@)[w] == p;
        }
        assert(chain_ok(store@, cset));
        assert(!cset.contains(path@));
    }
    let text = match store.get(path) {
        None => {
            proof {
                assert(process_module(store@, path@, defs0, cset) == Err::<
                    (Seq<char>, Defs),
                    SpecError,
                >(SpecError::FileNotFound(path@)));
            }
            return Err(Error::FileNotFound(chars_string(path)));
        },
        Some(t) => t,
    };
    let lines = split_lines(text);
    let mut chain2 = clone_texts(chain);
    let path_copy = subvec(path, 0, path.len());
    proof {
        assert(path_copy@ =~= path@);
    }
    chain2.push(path_copy);
    let ghost cset2 = texts_view(chain2@).to_set();
    let ghost total = store@.dom().len() as int;
    proof {
        assert(texts_view(chain2@) =~= texts_view(chain@).push(path@));
        lemma_to_set_push(texts_view(chain@), path@);
        assert(cset2 == cset.insert(path@));
        assert forall|k: int|
            0 <= k < chain2@.len() implies store@.dom().contains(
            #[trigger] texts_view(chain2@)[k],
        ) by {
            if k < chain@.len() {
                assert(texts_view(chain2@)[k] == texts_view(chain@)[k]);
            }
        }
        assert forall|p: Seq<char>| cset2.contains(p) implies store@.dom().contains(p) by {
            let w = choose|w: int|
                0 <= w < texts_view(chain2@).len() && texts_view(chain2@)[w] == p;
        }
        vstd::seq_lib::seq_to_set_is_finite(texts_view(chain2@));
        assert(chain_ok(store@, cset2));
        lemma_len_subset(cset2, store@.dom());
        texts_view(chain2@).unique_seq_to_set();
        assert(chain2@.len() <= total);
    }
    let ghost lv = texts_view(lines@);
    let ghost target = process_lines(
        store@,
        lv,
        0,
        defs0,
        Seq::empty(),
        Seq::empty(),
        cset2,
    );
    proof {
        assert(lv == lines_of(store@[path@]));
        assert(process_module(store@, path@, defs0, cset) == target);
    }
    let mut stack: Vec<(Vec<char>, bool)> = Vec::new();
    let mut out: Vec<char> = Vec::new();
    let mut i: usize = 0;
    proof {
        assert(guards_view(stack@) =~= Seq::<(Seq<char>, bool)>::empty());
    }
    while i < lines.len()
        invariant
            i <= lines@.len(),
            lv == texts_view(lines@),
            lv.len() == lines@.len(),
            table.wf(),
            store@.dom().finite(),
            cset2 == texts_view(chain2@).to_set(),
            texts_view(chain2@).no_duplicates(),
            forall|k: int|
                0 <= k < chain2@.len() ==> store@.dom().contains(
                    #[trigger] texts_view(chain2@)[k],
                ),
            chain2@.len() == chain@.len() + 1,
            chain2@.len() <= store@.dom().len(),
            chain_ok(store@, cset2),
            process_module(store@, path@, defs0, cset) == target,
            process_lines(store@, lv, i as int, table@, guards_view(stack@), out@, cset2)
                == target,
        decreases lines@.len() - i,
    {
        let line = &lines[i];
        let toks = tokenize(line);
        let ghost line_v = line@;
        let ghost toks_v = texts_view(toks@);
        let ghost defs_at = table@;
        let ghost stack_at = guards_view(stack@);
        let ghost out_at = out@;
        proof {
            assert(lv[i as int] == line_v);
            assert(toks_v == tokens_of(line_v));
            assert(forall|k: int| 0 <= k < toks@.len() ==> toks_v[k] == #[trigger] toks@[k]@);
            assert(stack_at.len() == stack@.len());
        }
        let has_tok = toks.len() > 0;
        let is_anchored = line.len() > 0 && !crate::text::is_space_char(line[0]);
        let is_ifdef = is_anchored && has_tok && chars_eq_str(&toks[0], "//!ifdef");
        let is_ifndef = is_anchored && has_tok && chars_eq_str(&toks[0], "//!ifndef");
        proof {
            assert(is_anchored == anchored(line_v));
        }
        if is_anchored && has_tok && chars_eq_str(&toks[0], "//!endif") {
            if toks.len() != 1 {
                proof {
                    assert(target == Err::<(Seq<char>, Defs), SpecError>(
                        SpecError::MalformedDirective(line_v),
                    ));
                }
                return Err(Error::MalformedDirective(chars_string(line)));
            }
            if stack.len() == 0 {
                proof {
                    assert(target == Err::<(Seq<char>, Defs), SpecError>(
                        SpecError::UnbalancedConditional,
                    ));
                }
                return Err(Error::UnbalancedConditional);
            }
            stack.pop();
            proof {
                assert(guards_view(stack@) =~= stack_at.drop_last());
                assert(process_lines(
                    store@,
                    lv,
                    i + 1,
                    table@,
                    guards_view(stack@),
                    out@,
                    cset2,
                ) == target);
            }
        } else if is_anchored && has_tok && chars_eq_str(&toks[0], "//!else") {
            if toks.len() != 1 {
                proof {
                    assert(target == Err::<(Seq<char>, Defs), SpecError>(
                        SpecError::MalformedDirective(line_v),
                    ));
                }
                return Err(Error::MalformedDirective(chars_string(line)));
            }
            if stack.len() == 0 {
                proof {
                    assert(target == Err::<(Seq<char>, Defs), SpecError>(
                        SpecError::UnbalancedConditional,
                    ));
                }
                return Err(Error::UnbalancedConditional);
            }
            let g = stack.pop().unwrap();
            stack.push((g.0, !g.1));
            proof {
                assert(guards_view(stack@) =~= stack_at.update(
                    stack_at.len() - 1,
                    (stack_at.last().0, !stack_at.last().1),
                ));
                assert(process_lines(
                    store@,
                    lv,
                    i + 1,
                    table@,
                    guards_view(stack@),
                    out@,
                    cset2,
                ) == target);
            }
        } else if is_anchored && has_tok && chars_eq_str(&toks[0], "//!undef") {
            if toks.len() != 2 {
                proof {
                    assert(target == Err::<(Seq<char>, Defs), SpecError>(
                        SpecError::MalformedDirective(line_v),
                    ));
                }
                return Err(Error::MalformedDirective(chars_string(line)));
            }
            let removed = table.remove(&toks[1]);
            if !removed {
                proof {
                    assert(target == Err::<(Seq<char>, Defs), SpecError>(
                        SpecError::UndefinedSymbol(toks_v[1]),
                    ));
                }
                return Err(Error::UndefinedSymbol(chars_string(&toks[1])));
            }
            proof {
                assert(process_lines(
                    store@,
                    lv,
                    i + 1,
                    table@,
                    guards_view(stack@),
                    out@,
                    cset2,
                ) == target);
            }
        } else if is_ifdef || is_ifndef {
            if toks.len() != 2 {
                proof {
                    assert(target == Err::<(Seq<char>, Defs), SpecError>(
                        SpecError::MalformedDirective(line_v),
                    ));
                }
                return Err(Error::MalformedDirective(chars_string(line)));
            }
            let name = subvec(&toks[1], 0, toks[1].len());
            proof {
                assert(name@ =~= toks_v[1]);
            }
            stack.push((name, is_ifdef));
            proof {
                assert(guards_view(stack@) =~= stack_at.push(
                    (toks_v[1], toks_v[0] == ifdef_word()),
                ));
                assert(process_lines(
                    store@,
                    lv,
                    i + 1,
                    table@,
                    guards_view(stack@),
                    out@,
                    cset2,
                ) == target);
            }
        } else {
            let rel = relevant(&stack, &table);
            if !rel {
                proof {
                    assert(process_lines(
                        store@,
                        lv,
                        i + 1,
                        table@,
                        guards_view(stack@),
                        out@,
                        cset2,
                    ) == target);
                }
                i = i + 1;
                continue ;
            }
            if is_anchored && has_tok && chars_eq_str(&toks[0], "//!include") {
                let ghost rpaths = toks_v.drop_first();
                proof {
                    assert(target == after_references(
                        store@,
                        lv,
                        i as int,
                        stack_at,
                        out_at,
                        cset2,
                        process_references(store@, rpaths, 0, defs_at, cset2),
                    ));
                }
                let mut j: usize = 1;
                while j < toks.len()
                    invariant
                        1 <= j <= toks@.len(),
                        toks_v == texts_view(toks@),
                        toks_v.len() == toks@.len(),
                        rpaths == toks_v.drop_first(),
                        rpaths.len() == toks_v.len() - 1,
                        table.wf(),
                        store@.dom().finite(),
                        cset2 == texts_view(chain2@).to_set(),
                        texts_view(chain2@).no_duplicates(),
                        forall|k: int|
                            0 <= k < chain2@.len() ==> store@.dom().contains(
                                #[trigger] texts_view(chain2@)[k],
                            ),
                        chain2@.len() == chain@.len() + 1,
                        chain2@.len() <= store@.dom().len(),
                        chain_ok(store@, cset2),
                        0 <= i < lv.len(),
                        guards_view(stack@) == stack_at,
                        process_module(store@, path@, defs0, cset) == target,
                        target == after_references(
                            store@,
                            lv,
                            i as int,
                            stack_at,
                            out@,
                            cset2,
                            process_references(
                                store@,
                                rpaths,
                                j - 1,
                                table@,
                                cset2,
                            ),
                        ),
                    decreases toks@.len() - j,
                {
                    let ghost defs_j = table@;
                    proof {
                        assert(rpaths[j - 1] == toks_v[j as int]);
                        assert(toks_v[j as int] == toks@[j as int]@);
                    }
                    let p = &toks[j];
                    if chain_contains(&chain2, p) {
                        proof {
                            assert(cset2.contains(p@));
                            assert(process_references(store@, rpaths, j - 1, defs_j, cset2)
                                == Err::<(Seq<char>, Defs), SpecError>(
                                SpecError::CyclicReference(p@),
                            ));
                            assert(target == Err::<(Seq<char>, Defs), SpecError>(
                                SpecError::CyclicReference(p@),
                            ));
                        }
                        return Err(Error::CyclicReference(chars_string(p)));
                    }
                    proof {
                        texts_view(chain2@).unique_seq_to_set();
                    }
                    let sub = load_module(store, p, table, &chain2);
                    match sub {
                        Err(e) => {
                            proof {
                                assert(process_references(store@, rpaths, j - 1, defs_j, cset2)
                                    == Err::<(Seq<char>, Defs), SpecError>(e@));
                                assert(target == Err::<(Seq<char>, Defs), SpecError>(e@));
                            }
                            return Err(e);
                        },
                        Ok(t) => {
                            proof {
                                let rj = process_references(
                                    store@,
                                    rpaths,
                                    j as int,
                                    table@,
                                    cset2,
                                );
                                assert(process_module(store@, p@, defs_j, cset2) == Ok::<
                                    (Seq<char>, Defs),
                                    SpecError,
                                >((t@, table@)));
                                assert(process_references(store@, rpaths, j - 1, defs_j, cset2)
                                    == match rj {
                                    Err(e) => Err(e),
                                    Ok(pr) => Ok((t@ + pr.0, pr.1)),
                                });
                                if rj is Ok {
                                    assert((out@ + (t@ + rj->Ok_0.0)) =~= ((out@ + t@)
                                        + rj->Ok_0.0));
                                }
                                assert(after_references(
                                    store@,
                                    lv,
                                    i as int,
                                    stack_at,
                                    out@,
                                    cset2,
                                    process_references(store@, rpaths, j - 1, defs_j, cset2),
                                ) == after_references(
                                    store@,
                                    lv,
                                    i as int,
                                    stack_at,
                                    out@ + t@,
                                    cset2,
                                    rj,
                                ));
                            }
                            append_chars(&mut out, &t);
                            j = j + 1;
                        },
                    }
                }
                proof {
                    assert(j - 1 == rpaths.len());
                    assert(process_references(store@, rpaths, j - 1, table@, cset2) == Ok::<
                        (Seq<char>, Defs),
                        SpecError,
                    >((Seq::empty(), table@)));
                    assert(out@ + Seq::<char>::empty() =~= out@);
                    assert(process_lines(
                        store@,
                        lv,
                        i + 1,
                        table@,
                        guards_view(stack@),
                        out@,
                        cset2,
                    ) == target);
                }
            } else if is_anchored && has_tok && chars_eq_str(&toks[0], "//!define") {
                if toks.len() == 1 {
                    proof {
                        assert(target == Err::<(Seq<char>, Defs), SpecError>(
                            SpecError::MalformedDirective(line_v),
                        ));
                    }
                    return Err(Error::MalformedDirective(chars_string(line)));
                } else if toks.len() == 2 {
                    let defined = table.contains(&toks[1]);
                    if !defined {
                        let name = subvec(&toks[1], 0, toks[1].len());
                        proof {
                            assert(name@ =~= toks_v[1]);
                        }
                        table.insert(name, None);
                        proof {
                            assert(table@ == defs_insert(defs_at, toks_v[1], None));
                            assert(process_lines(
                                store@,
                                lv,
                                i + 1,
                                table@,
                                guards_view(stack@),
                                out@,
                                cset2,
                            ) == target);
                        }
                    } else {
                        append_chars(&mut out, &toks[1]);
                        out.push('\n');
                        proof {
                            assert(out@ =~= out_at + toks_v[1] + seq!['\n']);
                            assert(process_lines(
                                store@,
                                lv,
                                i + 1,
                                table@,
                                guards_view(stack@),
                                out@,
                                cset2,
                            ) == target);
                        }
                    }
                } else {
                    let k1 = skip_spaces_at(line, 0);
                    let e1 = token_end_at(line, k1);
                    let k2 = skip_spaces_at(line, e1);
                    let e2 = token_end_at(line, k2);
                    let line_len = line.len();
                    proof {
                        crate::text::lemma_token_positions(line_v);
                        assert(e2 < line_len);
                    }
                    let value = subvec(line, e2 + 1, line_len);
                    let name = subvec(&toks[1], 0, toks[1].len());
                    proof {
                        assert(name@ =~= toks_v[1]);
                        assert(value@ == define_value(line_v));
                    }
                    table.insert(name, Some(value));
                    proof {
                        assert(value@ == define_value(line_v));
                        assert(table@ == defs_insert(
                            defs_at,
                            toks_v[1],
                            Some(define_value(line_v)),
                        ));
                        assert(process_lines(
                            store@,
                            lv,
                            i + 1,
                            table@,
                            guards_view(stack@),
                            out@,
                            cset2,
                        ) == target);
                    }
                }
            } else {
                append_chars(&mut out, line);
                out.push('\n');
                proof {
                    assert(out@ =~= out_at + line_v + seq!['\n']);
                    assert(process_lines(
                        store@,
                        lv,
                        i + 1,
                        table@,
                        guards_view(stack@),
                        out@,
                        cset2,
                    ) == target);
                }
            }
        }
        i = i + 1;
    }
    if stack.len() == 0 {
        proof {
            assert(target == Ok::<(Seq<char>, Defs), SpecError>((out@, table@)));
        }
        Ok(out)
    } else {
        proof {
            assert(guards_view(stack@).len() > 0);
            assert(target == Err::<(Seq<char>, Defs), SpecError>(
                SpecError::UnterminatedConditional,
            ));
        }
        Err(Error::UnterminatedConditional)
    }
}

} // verus!
