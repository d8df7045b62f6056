//! The meaning of pattern compilation: a character-by-character scan
//! of the pattern, stated as a recursive specification, together with
//! a declarative characterization of the patterns it accepts.

use vstd::prelude::*;

use crate::token::SpecToken;

verus! {

/// The four characters with special meaning in a pattern.
pub open spec fn is_delim(c: char) -> bool {
    c == '.' || c == '(' || c == ')' || c == '|'
}

/// The parse state carried through the scan: the tokens emitted so
/// far, the start of the bare-text run currently open (if any), and
/// the options accumulated for the alternation group currently open
/// (if any).
#[verifier::ext_equal]
pub struct ScanState {
    pub tokens: Seq<SpecToken>,
    pub run_start: Option<nat>,
    pub group: Option<Seq<Seq<char>>>,
}

pub open spec fn scan_state(
    tokens: Seq<SpecToken>,
    run_start: Option<nat>,
    group: Option<Seq<Seq<char>>>,
) -> ScanState {
    ScanState { tokens, run_start, group }
}

pub open spec fn init_scan_state() -> ScanState {
    scan_state(Seq::empty(), None, None)
}

/// If a bare-text run is open, close it by emitting the `Literal`
/// spanning from its start up to (not including) position `i`.
pub open spec fn close_run(p: Seq<char>, i: nat, st: ScanState) -> ScanState {
    match st.run_start {
        Some(s) => scan_state(
            st.tokens.push(SpecToken::Literal(p.subrange(s as int, i as int))),
            None,
            st.group,
        ),
        None => st,
    }
}

/// Scan pattern `p` from position `i` onward, starting in state `st`.
/// `None` means the pattern is malformed: a `(` inside an open group,
/// a `)` with no open group, or a `|` outside a group or outside a
/// bare-text run.
pub open spec fn spec_scan(p: Seq<char>, i: nat, st: ScanState) -> Option<ScanState>
    decreases p.len() - i,
{
    if i >= p.len() {
        Some(st)
    } else {
        let c = p[i as int];
        if c == '.' {
            let st1 = close_run(p, i, st);
            spec_scan(
                p,
                i + 1,
                scan_state(st1.tokens.push(SpecToken::Wildcard), None, st1.group),
            )
        } else if c == '(' {
            if st.group is Some {
                None
            } else {
                let st1 = close_run(p, i, st);
                spec_scan(p, i + 1, scan_state(st1.tokens, None, Some(Seq::empty())))
            }
        } else if c == ')' {
            match st.group {
                None => None,
                Some(opts) => {
                    let opts1 = match st.run_start {
                        Some(s) => opts.push(p.subrange(s as int, i as int)),
                        None => opts,
                    };
                    spec_scan(
                        p,
                        i + 1,
                        scan_state(st.tokens.push(SpecToken::Alternation(opts1)), None, None),
                    )
                },
            }
        } else if c == '|' {
            match (st.group, st.run_start) {
                (Some(opts), Some(s)) => spec_scan(
                    p,
                    i + 1,
                    scan_state(
                        st.tokens,
                        None,
                        Some(opts.push(p.subrange(s as int, i as int))),
                    ),
                ),
                _ => None,
            }
        } else {
            match st.run_start {
                Some(_) => spec_scan(p, i + 1, st),
                None => spec_scan(p, i + 1, scan_state(st.tokens, Some(i), st.group)),
            }
        }
    }
}

/// A `(` somewhere in `q` is still open: no `)` follows it.
pub open spec fn open_group(q: Seq<char>) -> bool {
    exists|k: int|
        0 <= k < q.len() && q[k] == '(' && (forall|j: int| k < j < q.len() ==> q[j] != ')')
}

/// `q` ends inside a bare-text run: its last character is ordinary
/// text, not a delimiter.
pub open spec fn in_run(q: Seq<char>) -> bool {
    q.len() > 0 && !is_delim(q[q.len() - 1])
}

/// The character at position `i` of `p` is a syntax violation: a `(`
/// while a group is already open, a `)` with no open group, or a `|`
/// outside an open group or outside an active text run.
pub open spec fn violation_at(p: Seq<char>, i: int) -> bool
    recommends
        0 <= i < p.len(),
{
    ||| (p[i] == '(' && open_group(p.subrange(0, i)))
    ||| (p[i] == ')' && !open_group(p.subrange(0, i)))
    ||| (p[i] == '|' && !(open_group(p.subrange(0, i)) && in_run(p.subrange(0, i))))
}

/// A pattern is well formed when no position of it is a syntax
/// violation and no group is left open at its end.
pub open spec fn well_formed(p: Seq<char>) -> bool {
    (forall|i: int| 0 <= i < p.len() ==> !violation_at(p, i)) && !open_group(p)
}

/// What compiling a pattern yields: the emitted token sequence, or
/// `None` if the pattern is malformed (including a group still open
/// at the end of the pattern). A bare-text run still open at the end
/// of the pattern is closed and emitted as a final `Literal`.
pub open spec fn spec_compile(p: Seq<char>) -> Option<Seq<SpecToken>> {
    match spec_scan(p, 0, init_scan_state()) {
        None => None,
        Some(st) => if st.group is Some {
            None
        } else {
            Some(close_run(p, p.len(), st).tokens)
        },
    }
}

proof fn lemma_open_group_push(q: Seq<char>, c: char)
    ensures
        open_group(q.push(c)) == if c == '(' {
            true
        } else if c == ')' {
            false
        } else {
            open_group(q)
        },
{
    let q1 = q.push(c);
    if c == '(' {
        assert(q1[q.len() as int] == '(');
        assert(open_group(q1));
    } else if c == ')' {
        assert forall|k: int| 0 <= k < q1.len() && q1[k] == '(' implies !(forall|j: int|
            k < j < q1.len() ==> q1[j] != ')') by {
            assert(q1[q1.len() - 1] == ')');
        }
    } else {
        if open_group(q) {
            let k = choose|k: int|
                0 <= k < q.len() && q[k] == '(' && (forall|j: int| k < j < q.len() ==> q[j] != ')');
            assert(q1[k] == '(');
            assert(forall|j: int| k < j < q1.len() ==> q1[j] != ')');
            assert(open_group(q1));
        }
        if open_group(q1) {
            let k = choose|k: int|
                0 <= k < q1.len() && q1[k] == '(' && (forall|j: int|
                    k < j < q1.len() ==> q1[j] != ')');
            assert(k < q.len());
            assert(q[k] == '(');
            assert forall|j: int| k < j < q.len() implies q[j] != ')' by {
                assert(q1[j] == q[j]);
            }
            assert(open_group(q));
        }
    }
}

proof fn lemma_in_run_push(q: Seq<char>, c: char)
    ensures
        in_run(q.push(c)) == !is_delim(c),
{
    assert(q.push(c)[q.len() as int] == c);
}

/// Scanning from position `i`, in a state that agrees with the prefix
/// `p[..i]` on whether a group and a text run are open, fails exactly
/// when some later position is a violation, and ends with a group
/// still open exactly when the whole pattern leaves one open.
proof fn lemma_scan_characterizes(p: Seq<char>, i: nat, st: ScanState)
    requires
        i <= p.len(),
        (st.group is Some) == open_group(p.subrange(0, i as int)),
        (st.run_start is Some) == in_run(p.subrange(0, i as int)),
    ensures
        (spec_scan(p, i, st) is Some) == (forall|j: int| i <= j < p.len() ==> !violation_at(p, j)),
        spec_scan(p, i, st) is Some ==> ((spec_scan(p, i, st)->Some_0.group is Some) == open_group(
            p,
        )),
    decreases p.len() - i,
{
    let q = p.subrange(0, i as int);
    if i == p.len() {
        assert(q =~= p);
    } else {
        let c = p[i as int];
        let q1 = p.subrange(0, i as int + 1);
        assert(q1 =~= q.push(c));
        lemma_open_group_push(q, c);
        lemma_in_run_push(q, c);
        if c == '.' {
            let st1 = close_run(p, i, st);
            let st2 = scan_state(st1.tokens.push(SpecToken::Wildcard), None, st1.group);
            lemma_scan_characterizes(p, i + 1, st2);
            assert(!violation_at(p, i as int));
        } else if c == '(' {
            if st.group is Some {
                assert(violation_at(p, i as int));
            } else {
                let st1 = close_run(p, i, st);
                let st2 = scan_state(st1.tokens, None, Some(Seq::empty()));
                lemma_scan_characterizes(p, i + 1, st2);
                assert(!violation_at(p, i as int));
            }
        } else if c == ')' {
            match st.group {
                None => {
                    assert(violation_at(p, i as int));
                },
                Some(opts) => {
                    let opts1 = match st.run_start {
                        Some(s) => opts.push(p.subrange(s as int, i as int)),
                        None => opts,
                    };
                    let st2 = scan_state(
                        st.tokens.push(SpecToken::Alternation(opts1)),
                        None,
                        None,
                    );
                    lemma_scan_characterizes(p, i + 1, st2);
                    assert(!violation_at(p, i as int));
                },
            }
        } else if c == '|' {
            match (st.group, st.run_start) {
                (Some(opts), Some(s)) => {
                    let st2 = scan_state(
                        st.tokens,
                        None,
                        Some(opts.push(p.subrange(s as int, i as int))),
                    );
                    lemma_scan_characterizes(p, i + 1, st2);
                    assert(!violation_at(p, i as int));
                },
                _ => {
                    assert(violation_at(p, i as int));
                },
            }
        } else {
            let st2 = match st.run_start {
                Some(_) => st,
                None => scan_state(st.tokens, Some(i), st.group),
            };
            lemma_scan_characterizes(p, i + 1, st2);
            assert(!violation_at(p, i as int));
        }
    }
}

/// A token carries no empty text: a `Literal`'s text, and each option
/// of an `Alternation`, is at least one character long.
pub open spec fn token_nonempty(t: SpecToken) -> bool {
    match t {
        SpecToken::Literal(txt) => txt.len() > 0,
        SpecToken::Alternation(opts) => forall|x: int| 0 <= x < opts.len() ==> opts[x].len() > 0,
        SpecToken::Wildcard => true,
    }
}

pub open spec fn all_tokens_nonempty(ts: Seq<SpecToken>) -> bool {
    forall|x: int| 0 <= x < ts.len() ==> token_nonempty(#[trigger] ts[x])
}

proof fn lemma_scan_nonempty(p: Seq<char>, i: nat, st: ScanState)
    requires
        i <= p.len(),
        all_tokens_nonempty(st.tokens),
        st.run_start is Some ==> st.run_start->Some_0 < i,
        st.group is Some ==> forall|x: int|
            0 <= x < st.group->Some_0.len() ==> st.group->Some_0[x].len() > 0,
    ensures
        spec_scan(p, i, st) is Some ==> {
            let st2 = spec_scan(p, i, st)->Some_0;
            &&& all_tokens_nonempty(st2.tokens)
            &&& (st2.run_start is Some ==> st2.run_start->Some_0 < p.len())
        },
    decreases p.len() - i,
{
    if i < p.len() {
        let c = p[i as int];
        if c == '.' {
            let st1 = close_run(p, i, st);
            assert(all_tokens_nonempty(st1.tokens));
            let stw = scan_state(st1.tokens.push(SpecToken::Wildcard), None, st1.group);
            assert(all_tokens_nonempty(stw.tokens));
            lemma_scan_nonempty(p, i + 1, stw);
        } else if c == '(' {
            if st.group is None {
                let st1 = close_run(p, i, st);
                assert(all_tokens_nonempty(st1.tokens));
                lemma_scan_nonempty(p, i + 1, scan_state(st1.tokens, None, Some(Seq::empty())));
            }
        } else if c == ')' {
            match st.group {
                None => {},
                Some(opts) => {
                    let opts1 = match st.run_start {
                        Some(s) => opts.push(p.subrange(s as int, i as int)),
                        None => opts,
                    };
                    assert(forall|x: int| 0 <= x < opts1.len() ==> opts1[x].len() > 0);
                    let st2 = scan_state(
                        st.tokens.push(SpecToken::Alternation(opts1)),
                        None,
                        None,
                    );
                    assert(all_tokens_nonempty(st2.tokens));
                    lemma_scan_nonempty(p, i + 1, st2);
                },
            }
        } else if c == '|' {
            match (st.group, st.run_start) {
                (Some(opts), Some(s)) => {
                    let opts1 = opts.push(p.subrange(s as int, i as int));
                    assert(forall|x: int| 0 <= x < opts1.len() ==> opts1[x].len() > 0);
                    lemma_scan_nonempty(p, i + 1, scan_state(st.tokens, None, Some(opts1)));
                },
                _ => {},
            }
        } else {
            match st.run_start {
                Some(_) => {
                    lemma_scan_nonempty(p, i + 1, st);
                },
                None => {
                    lemma_scan_nonempty(p, i + 1, scan_state(st.tokens, Some(i), st.group));
                },
            }
        }
    }
}

/// Law (data model invariant): compilation never emits an empty
/// literal token or an empty alternation option; every run of text it
/// closes spans at least one character of the pattern.
pub proof fn lemma_compiled_tokens_nonempty(p: Seq<char>)
    requires
        spec_compile(p) is Some,
    ensures
        all_tokens_nonempty(spec_compile(p)->Some_0),
{
    lemma_scan_nonempty(p, 0, init_scan_state());
    let st = spec_scan(p, 0, init_scan_state())->Some_0;
    assert(all_tokens_nonempty(close_run(p, p.len(), st).tokens));
}

/// Law: compilation succeeds exactly on the well-formed patterns.
/// It fails if and only if some position of the pattern is a syntax
/// violation - a nested `(`, an unmatched `)`, or a misplaced `|` -
/// or a `(` is left unmatched at the end of the pattern.
pub proof fn lemma_compile_iff_well_formed(p: Seq<char>)
    ensures
        (spec_compile(p) is Some) == well_formed(p),
{
    assert(p.subrange(0, 0) =~= Seq::<char>::empty());
    lemma_scan_characterizes(p, 0, init_scan_state());
}

} // verus!
