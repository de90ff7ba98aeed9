//! The scanner's model: a state machine over the raw token sequence.
//!
//! The scanner is in one of two states: awaiting a switch or a positional
//! token, or awaiting the value for a pending switch. [`scan_step`] says what
//! one token does to the state; [`scan`] folds it over a token sequence,
//! stopping at the first error. [`crate::args::Arguments::build`] is proved to
//! behave exactly as `scan` says.

use vstd::prelude::*;

use crate::handlers::FlagView;
use crate::handlers::HandlerView;
use crate::handlers::lemma_last_parse_wins;
use crate::handlers::lemma_parse_keeps_kind;
use crate::handlers::lemma_parse_ok_state_independent;
use crate::handlers::parse_ok_spec;
use crate::handlers::parse_step_spec;
use crate::handlers::requires_value_spec;
use crate::handlers::set_step_spec;
use crate::switch::SwitchView;

verus! {

/// The scanner's state: the handler table, the positional tokens collected so
/// far, and the switch (by index) whose value the next token must supply, if
/// any.
pub struct ScanState {
    pub handlers: Seq<HandlerView>,
    pub positionals: Seq<Seq<char>>,
    pub pending: Option<int>,
}

/// The failures the scanner can report, each mirroring one error of
/// [`crate::args::ArgError`] that can arise during the token scan.
pub enum ScanFailure {
    /// A pending switch's value token was refused; carries the switch's name.
    InvalidValue(Seq<char>),
    /// A bare `--` token.
    InvalidLongSwitch,
    /// A long key that no switch carries.
    UnknownLongSwitch,
    /// A token starting with `-` that is not exactly one dash and one
    /// character.
    InvalidShortSwitch,
    /// A short key that no switch carries.
    UnknownShortSwitch,
}

/// The registered switch with the given short key: the last one, when several
/// collide (later registrations overwrite earlier ones).
pub open spec fn find_short(ss: Seq<SwitchView>, c: char) -> Option<int>
    decreases ss.len(),
{
    if ss.len() == 0 {
        None
    } else if ss.last().switch == Some(c) {
        Some(ss.len() - 1)
    } else {
        find_short(ss.drop_last(), c)
    }
}

/// The registered switch with the given long key: the last one, when several
/// collide (later registrations overwrite earlier ones).
pub open spec fn find_long(ss: Seq<SwitchView>, key: Seq<char>) -> Option<int>
    decreases ss.len(),
{
    if ss.len() == 0 {
        None
    } else if ss.last().ext_switch == Some(key) {
        Some(ss.len() - 1)
    } else {
        find_long(ss.drop_last(), key)
    }
}

/// What a recognized switch occurrence does: a switch whose handler consumes
/// a value becomes pending, any other has its handler told of the bare
/// occurrence at once.
pub open spec fn route_switch(ss: Seq<SwitchView>, st: ScanState, i: int) -> ScanState {
    let h = st.handlers[ss[i].handler];
    if requires_value_spec(h) {
        ScanState { pending: Some(i), ..st }
    } else {
        ScanState { handlers: st.handlers.update(ss[i].handler, set_step_spec(h)), ..st }
    }
}

/// What one token does to the scanner's state. A pending switch consumes the
/// token as its value; otherwise a token starting with `--` is a long switch,
/// one starting with `-` is a short switch, and anything else is collected as
/// a positional argument.
pub open spec fn scan_step(ss: Seq<SwitchView>, st: ScanState, t: Seq<char>) -> (ScanState, Option<
    ScanFailure,
>) {
    if st.pending is Some {
        let p = st.pending->Some_0;
        let h = st.handlers[ss[p].handler];
        if parse_ok_spec(h, t) {
            (
                ScanState {
                    handlers: st.handlers.update(ss[p].handler, parse_step_spec(h, t)),
                    positionals: st.positionals,
                    pending: None,
                },
                None,
            )
        } else {
            (st, Some(ScanFailure::InvalidValue(ss[p].name)))
        }
    } else if t.len() >= 2 && t[0] == '-' && t[1] == '-' {
        if t.len() == 2 {
            (st, Some(ScanFailure::InvalidLongSwitch))
        } else {
            match find_long(ss, t.skip(2)) {
                Some(i) => (route_switch(ss, st, i), None),
                None => (st, Some(ScanFailure::UnknownLongSwitch)),
            }
        }
    } else if t.len() >= 1 && t[0] == '-' {
        if t.len() != 2 {
            (st, Some(ScanFailure::InvalidShortSwitch))
        } else {
            match find_short(ss, t[1]) {
                Some(i) => (route_switch(ss, st, i), None),
                None => (st, Some(ScanFailure::UnknownShortSwitch)),
            }
        }
    } else {
        (ScanState { positionals: st.positionals.push(t), ..st }, None)
    }
}

/// The scanner's state after a whole token sequence, left to right, and the
/// first failure, if one arose: the state then is the state at the failure,
/// with every earlier effect kept.
pub open spec fn scan(ss: Seq<SwitchView>, st: ScanState, tokens: Seq<Seq<char>>) -> (ScanState, Option<
    ScanFailure,
>)
    decreases tokens.len(),
{
    if tokens.len() == 0 {
        (st, None)
    } else {
        let stepped = scan_step(ss, st, tokens[0]);
        if stepped.1 is Some {
            stepped
        } else {
            scan(ss, stepped.0, tokens.skip(1))
        }
    }
}

/// Scanning a split token sequence scans its first part, and goes on with the
/// second exactly when the first part raised no failure.
pub proof fn lemma_scan_split(ss: Seq<SwitchView>, st: ScanState, a: Seq<Seq<char>>, b: Seq<
    Seq<char>,
>)
    ensures
        scan(ss, st, a + b) == if scan(ss, st, a).1 is Some {
            scan(ss, st, a)
        } else {
            scan(ss, scan(ss, st, a).0, b)
        },
    decreases a.len(),
{
    if a.len() == 0 {
        assert(a + b =~= b);
    } else {
        assert((a + b)[0] == a[0]);
        assert((a + b).skip(1) =~= a.skip(1) + b);
        let stepped = scan_step(ss, st, a[0]);
        if stepped.1 is Some {
            if b.len() > 0 {
                assert((a + b).len() > 0);
            }
        } else {
            lemma_scan_split(ss, stepped.0, a.skip(1), b);
        }
    }
}

/// Law: the scanner only ever appends to the positional list. What was
/// already collected stays, unchanged and in order.
pub proof fn lemma_scan_keeps_positionals(ss: Seq<SwitchView>, st: ScanState, tokens: Seq<
    Seq<char>,
>)
    ensures
        scan(ss, st, tokens).0.positionals.len() >= st.positionals.len(),
        scan(ss, st, tokens).0.positionals.take(st.positionals.len() as int) == st.positionals,
    decreases tokens.len(),
{
    if tokens.len() == 0 {
        assert(st.positionals.take(st.positionals.len() as int) =~= st.positionals);
    } else {
        let stepped = scan_step(ss, st, tokens[0]);
        assert(stepped.0.positionals.take(st.positionals.len() as int) =~= st.positionals);
        if stepped.1 is Some {
        } else {
            lemma_scan_keeps_positionals(ss, stepped.0, tokens.skip(1));
            assert(scan(ss, stepped.0, tokens.skip(1)).0.positionals.take(
                st.positionals.len() as int,
            ) =~= st.positionals);
        }
    }
}

/// Law: a token that neither serves as a pending switch's value nor starts
/// with a dash lands at the end of the positional list, exactly as it came,
/// and touches nothing else.
pub proof fn lemma_positional_appended(ss: Seq<SwitchView>, st: ScanState, t: Seq<char>)
    requires
        st.pending is None,
        t.len() == 0 || t[0] != '-',
    ensures
        scan_step(ss, st, t) == ((ScanState { positionals: st.positionals.push(t), ..st }), None::<
            ScanFailure,
        >),
{
}

/// Law: a switch occurrence, or a token consumed as a pending switch's value,
/// never changes the positional list: positionals are unaffected by
/// interleaved switches.
pub proof fn lemma_switch_keeps_positionals(ss: Seq<SwitchView>, st: ScanState, t: Seq<char>)
    requires
        st.pending is Some || (t.len() > 0 && t[0] == '-'),
    ensures
        scan_step(ss, st, t).0.positionals == st.positionals,
{
}

/// Law: a bare occurrence of a presence flag's switch sets the flag at once
/// and leaves nothing pending, so no later token can be consumed by it: the
/// flag is set by the occurrence alone and unaffected by whatever follows.
pub proof fn lemma_flag_occurrence(ss: Seq<SwitchView>, st: ScanState, c: char, i: int)
    requires
        st.pending is None,
        c != '-',
        find_short(ss, c) == Some(i),
        0 <= i < ss.len(),
        0 <= ss[i].handler < st.handlers.len(),
        st.handlers[ss[i].handler] is Flag,
    ensures
        scan_step(ss, st, seq!['-', c]) == ((ScanState {
            handlers: st.handlers.update(
                ss[i].handler,
                HandlerView::Flag(crate::handlers::FlagView { value: true }),
            ),
            positionals: st.positionals,
            pending: None,
        }), None::<ScanFailure>),
{
    let t = seq!['-', c];
    assert(t.len() == 2 && t[0] == '-' && t[1] == c);
}

/// Every switch in the list binds a handler index within a table of `n`
/// entries.
pub open spec fn switches_in_range(ss: Seq<SwitchView>, n: int) -> bool {
    forall|k: int| 0 <= k < ss.len() ==> 0 <= (#[trigger] ss[k]).handler < n
}

/// The pending switch, when one exists, is a valid index into the switch
/// list.
pub open spec fn pending_in_range(st: ScanState, ss: Seq<SwitchView>) -> bool {
    match st.pending {
        Some(p) => 0 <= p < ss.len(),
        None => true,
    }
}

/// A successful short-key lookup names a registered switch that carries the
/// key.
pub proof fn lemma_find_short_valid(ss: Seq<SwitchView>, c: char)
    ensures
        find_short(ss, c) matches Some(i) ==> 0 <= i < ss.len() && ss[i].switch == Some(c),
    decreases ss.len(),
{
    if ss.len() > 0 && ss.last().switch != Some(c) {
        lemma_find_short_valid(ss.drop_last(), c);
        let r = find_short(ss.drop_last(), c);
        if r is Some {
            assert(ss.drop_last()[r->Some_0] == ss[r->Some_0]);
        }
    }
}

/// A successful long-key lookup names a registered switch that carries the
/// key.
pub proof fn lemma_find_long_valid(ss: Seq<SwitchView>, key: Seq<char>)
    ensures
        find_long(ss, key) matches Some(i) ==> 0 <= i < ss.len() && ss[i].ext_switch == Some(key),
    decreases ss.len(),
{
    if ss.len() > 0 && ss.last().ext_switch != Some(key) {
        lemma_find_long_valid(ss.drop_last(), key);
        let r = find_long(ss.drop_last(), key);
        if r is Some {
            assert(ss.drop_last()[r->Some_0] == ss[r->Some_0]);
        }
    }
}

/// One scan step keeps the handler table's size, keeps the pending switch a
/// valid index, and never unsets a set flag.
proof fn lemma_step_keeps_flags(ss: Seq<SwitchView>, st: ScanState, t: Seq<char>, hi: int)
    requires
        switches_in_range(ss, st.handlers.len() as int),
        pending_in_range(st, ss),
        0 <= hi < st.handlers.len(),
        st.handlers[hi] == HandlerView::Flag(FlagView { value: true }),
    ensures
        scan_step(ss, st, t).0.handlers.len() == st.handlers.len(),
        pending_in_range(scan_step(ss, st, t).0, ss),
        scan_step(ss, st, t).0.handlers[hi] == HandlerView::Flag(FlagView { value: true }),
{
    if t.len() >= 2 {
        lemma_find_long_valid(ss, t.skip(2));
        lemma_find_short_valid(ss, t[1]);
    }
}

/// Law: a set flag stays set through any further scanning: a flag handler is
/// never fed a value token, and a second bare occurrence only sets it again.
pub proof fn lemma_flag_stays_set(ss: Seq<SwitchView>, st: ScanState, tokens: Seq<Seq<char>>, hi: int)
    requires
        switches_in_range(ss, st.handlers.len() as int),
        pending_in_range(st, ss),
        0 <= hi < st.handlers.len(),
        st.handlers[hi] == HandlerView::Flag(FlagView { value: true }),
    ensures
        scan(ss, st, tokens).0.handlers.len() == st.handlers.len(),
        scan(ss, st, tokens).0.handlers[hi] == HandlerView::Flag(FlagView { value: true }),
    decreases tokens.len(),
{
    if tokens.len() > 0 {
        lemma_step_keeps_flags(ss, st, tokens[0], hi);
        let stepped = scan_step(ss, st, tokens[0]);
        if stepped.1 is None {
            lemma_flag_stays_set(ss, stepped.0, tokens.skip(1), hi);
        }
    }
}

/// `a` is a subsequence of `b`: the members of `a` appear in `b`, in the
/// same order, possibly with other members between them.
pub open spec fn is_subsequence_of(a: Seq<Seq<char>>, b: Seq<Seq<char>>) -> bool
    decreases b.len(),
{
    if a.len() == 0 {
        true
    } else if b.len() == 0 {
        false
    } else if a[0] == b[0] {
        is_subsequence_of(a.skip(1), b.skip(1))
    } else {
        is_subsequence_of(a, b.skip(1))
    }
}

/// A subsequence of a tail is a subsequence of the whole.
pub proof fn lemma_subsequence_widen(a: Seq<Seq<char>>, b: Seq<Seq<char>>)
    requires
        b.len() > 0,
        is_subsequence_of(a, b.skip(1)),
    ensures
        is_subsequence_of(a, b),
    decreases b.len(), 0int,
{
    if a.len() > 0 && a[0] == b[0] {
        lemma_subsequence_drop_first(a, b.skip(1));
    }
}

/// Dropping a subsequence's first member keeps it a subsequence.
pub proof fn lemma_subsequence_drop_first(a: Seq<Seq<char>>, b: Seq<Seq<char>>)
    requires
        a.len() > 0,
        is_subsequence_of(a, b),
    ensures
        is_subsequence_of(a.skip(1), b),
    decreases b.len(), 1int,
{
    if a[0] == b[0] {
        lemma_subsequence_widen(a.skip(1), b);
    } else {
        lemma_subsequence_drop_first(a, b.skip(1));
        lemma_subsequence_widen(a.skip(1), b);
    }
}

/// Law: the whole-scan form of the positional property. A scan appends to
/// the positional list exactly a subsequence of the scanned tokens — the
/// positional ones, in input order, none starting with a dash; interleaved
/// switch keys and their consumed value tokens add nothing, drop nothing
/// and reorder nothing.
pub proof fn lemma_scan_positionals_subsequence(
    ss: Seq<SwitchView>,
    st: ScanState,
    tokens: Seq<Seq<char>>,
)
    ensures
        ({
            let after = scan(ss, st, tokens).0.positionals;
            let n = st.positionals.len() as int;
            &&& after.len() >= st.positionals.len()
            &&& after.take(n) == st.positionals
            &&& is_subsequence_of(after.skip(n), tokens)
            &&& forall|j: int|
                n <= j < after.len() ==> ((#[trigger] after[j]).len() == 0 || after[j][0] != '-')
        }),
    decreases tokens.len(),
{
    let n = st.positionals.len() as int;
    if tokens.len() == 0 {
        assert(st.positionals.take(n) =~= st.positionals);
        assert(st.positionals.skip(n) =~= Seq::<Seq<char>>::empty());
    } else {
        let t0 = tokens[0];
        let stepped = scan_step(ss, st, t0);
        if stepped.1 is Some {
            // every failing step leaves the state as it found it, and the
            // scan stops there
            assert(stepped.0.positionals == st.positionals);
            assert(st.positionals.take(n) =~= st.positionals);
            assert(st.positionals.skip(n) =~= Seq::<Seq<char>>::empty());
        } else {
            lemma_scan_positionals_subsequence(ss, stepped.0, tokens.skip(1));
            let after = scan(ss, stepped.0, tokens.skip(1)).0.positionals;
            let m = stepped.0.positionals.len() as int;
            if st.pending is None && (t0.len() == 0 || t0[0] != '-') {
                // the token itself went to the end of the positionals
                assert(stepped.0.positionals == st.positionals.push(t0));
                assert(m == n + 1);
                assert(after.take(n) =~= st.positionals) by {
                    assert(after.take(m) == st.positionals.push(t0));
                    assert(forall|j: int| 0 <= j < n ==> after[j] == after.take(m)[j]);
                }
                assert(after[n] == t0) by {
                    assert(after.take(m)[n] == t0);
                }
                assert(after.skip(n) =~= seq![t0] + after.skip(m));
                assert(is_subsequence_of(after.skip(n), tokens)) by {
                    assert((seq![t0] + after.skip(m))[0] == t0);
                    assert((seq![t0] + after.skip(m)).skip(1) =~= after.skip(m));
                }
            } else {
                // a switch key, or a token consumed as a pending switch's
                // value: the positionals are untouched
                assert(stepped.0.positionals == st.positionals);
                lemma_subsequence_widen(after.skip(n), tokens);
            }
        }
    }
}

/// Law: the complement of the flag lifecycle: an unset flag is changed by a
/// scan step only if the token was a switch key routed to that flag's
/// handler, and then the change is to set it. A positional token or a
/// consumed value token never touches a flag, so a flag with no occurrence
/// of its switch stays unset.
pub proof fn lemma_flag_set_only_by_route(ss: Seq<SwitchView>, st: ScanState, t: Seq<char>, hi: int)
    requires
        switches_in_range(ss, st.handlers.len() as int),
        pending_in_range(st, ss),
        0 <= hi < st.handlers.len(),
        st.handlers[hi] == HandlerView::Flag(FlagView { value: false }),
        scan_step(ss, st, t).0.handlers[hi] != st.handlers[hi],
    ensures
        st.pending is None,
        t.len() > 0 && t[0] == '-',
        scan_step(ss, st, t).0.handlers[hi] == HandlerView::Flag(FlagView { value: true }),
{
    if t.len() >= 2 {
        lemma_find_long_valid(ss, t.skip(2));
        lemma_find_short_valid(ss, t[1]);
    }
}

/// Law: the whole-scan form of the flag lifecycle. When a token sets a flag
/// cleanly and leaves nothing pending — a bare occurrence of the flag's
/// switch, as [`lemma_flag_occurrence`] and [`lemma_flag_occurrence_long`]
/// describe — the flag is set from that token on and stays set through every
/// later token of the scan.
pub proof fn lemma_flag_set_by_scan(
    ss: Seq<SwitchView>,
    st: ScanState,
    t: Seq<char>,
    hi: int,
    rest: Seq<Seq<char>>,
)
    requires
        switches_in_range(ss, st.handlers.len() as int),
        0 <= hi < st.handlers.len(),
        scan_step(ss, st, t).1 is None,
        scan_step(ss, st, t).0.pending is None,
        scan_step(ss, st, t).0.handlers.len() == st.handlers.len(),
        scan_step(ss, st, t).0.handlers[hi] == HandlerView::Flag(FlagView { value: true }),
    ensures
        scan(ss, st, seq![t] + rest).0.handlers.len() == st.handlers.len(),
        scan(ss, st, seq![t] + rest).0.handlers[hi] == HandlerView::Flag(FlagView { value: true }),
{
    let ts = seq![t] + rest;
    assert(ts[0] == t);
    assert(ts.skip(1) =~= rest);
    lemma_flag_stays_set(ss, scan_step(ss, st, t).0, rest, hi);
}

/// Law: the whole-scan form of last-occurrence-wins. Scanning a
/// value-requiring switch twice, each occurrence followed by a value token
/// that commits, ends in exactly the state that scanning the last occurrence
/// alone reaches: the later value overwrites the earlier one.
pub proof fn lemma_scan_last_occurrence_wins(
    ss: Seq<SwitchView>,
    st: ScanState,
    c: char,
    i: int,
    v1: Seq<char>,
    v2: Seq<char>,
)
    requires
        st.pending is None,
        c != '-',
        find_short(ss, c) == Some(i),
        0 <= i < ss.len(),
        0 <= ss[i].handler < st.handlers.len(),
        requires_value_spec(st.handlers[ss[i].handler]),
        parse_ok_spec(st.handlers[ss[i].handler], v1),
        parse_ok_spec(st.handlers[ss[i].handler], v2),
    ensures
        scan(ss, st, seq![seq!['-', c], v1, seq!['-', c], v2]) == scan(
            ss,
            st,
            seq![seq!['-', c], v2],
        ),
{
    let tc = seq!['-', c];
    let hidx = ss[i].handler;
    let h = st.handlers[hidx];
    assert(tc.len() == 2 && tc[0] == '-' && tc[1] == c);

    // the four steps of the longer scan
    let st1 = ScanState { handlers: st.handlers, positionals: st.positionals, pending: Some(i) };
    assert(scan_step(ss, st, tc) == (st1, None::<ScanFailure>));
    let st2 = ScanState {
        handlers: st.handlers.update(hidx, parse_step_spec(h, v1)),
        positionals: st.positionals,
        pending: None,
    };
    assert(scan_step(ss, st1, v1) == (st2, None::<ScanFailure>));
    lemma_parse_keeps_kind(h, v1);
    assert(st2.handlers[hidx] == parse_step_spec(h, v1));
    assert(requires_value_spec(st2.handlers[hidx]));
    let st3 = ScanState { handlers: st2.handlers, positionals: st.positionals, pending: Some(i) };
    assert(scan_step(ss, st2, tc) == (st3, None::<ScanFailure>));
    lemma_parse_ok_state_independent(h, v1, v2);
    assert(parse_ok_spec(st2.handlers[hidx], v2));
    let st4 = ScanState {
        handlers: st2.handlers.update(hidx, parse_step_spec(parse_step_spec(h, v1), v2)),
        positionals: st.positionals,
        pending: None,
    };
    assert(scan_step(ss, st3, v2) == (st4, None::<ScanFailure>));

    // the two steps of the shorter scan
    let r2 = ScanState {
        handlers: st.handlers.update(hidx, parse_step_spec(h, v2)),
        positionals: st.positionals,
        pending: None,
    };
    assert(scan_step(ss, st1, v2) == (r2, None::<ScanFailure>));

    // the later parse overwrites the earlier one
    lemma_last_parse_wins(h, v1, v2);
    assert(st4.handlers =~= r2.handlers);
    assert(st4 == r2);

    // fold the steps into the two scans
    let left = seq![tc, v1, tc, v2];
    assert(left[0] == tc);
    assert(left.skip(1) =~= seq![v1, tc, v2]);
    assert(seq![v1, tc, v2][0] == v1);
    assert(seq![v1, tc, v2].skip(1) =~= seq![tc, v2]);
    assert(seq![tc, v2][0] == tc);
    assert(seq![tc, v2].skip(1) =~= seq![v2]);
    assert(seq![v2][0] == v2);
    assert(seq![v2].skip(1) =~= Seq::<Seq<char>>::empty());
    assert(scan(ss, st4, Seq::<Seq<char>>::empty()) == (st4, None::<ScanFailure>));
    assert(scan(ss, st3, seq![v2]) == (st4, None::<ScanFailure>));
    assert(scan(ss, st2, seq![tc, v2]) == (st4, None::<ScanFailure>));
    assert(scan(ss, st1, seq![v1, tc, v2]) == (st4, None::<ScanFailure>));
    assert(scan(ss, st, left) == (st4, None::<ScanFailure>));
    assert(scan(ss, r2, Seq::<Seq<char>>::empty()) == (r2, None::<ScanFailure>));
    assert(scan(ss, st1, seq![v2]) == (r2, None::<ScanFailure>));
    assert(scan(ss, st, seq![tc, v2]) == (r2, None::<ScanFailure>));
}

/// Law: the same, for a flag addressed by its long key: the bare occurrence
/// sets the flag at once and leaves nothing pending.
pub proof fn lemma_flag_occurrence_long(ss: Seq<SwitchView>, st: ScanState, t: Seq<char>, i: int)
    requires
        st.pending is None,
        t.len() > 2,
        t[0] == '-',
        t[1] == '-',
        find_long(ss, t.skip(2)) == Some(i),
        0 <= i < ss.len(),
        0 <= ss[i].handler < st.handlers.len(),
        st.handlers[ss[i].handler] is Flag,
    ensures
        scan_step(ss, st, t) == ((ScanState {
            handlers: st.handlers.update(
                ss[i].handler,
                HandlerView::Flag(crate::handlers::FlagView { value: true }),
            ),
            positionals: st.positionals,
            pending: None,
        }), None::<ScanFailure>),
{
}

} // verus!
