//! The registered switch set and the two-pass argument scanner.

use vstd::prelude::*;

use crate::handlers::ValueHandler;
use crate::scan::ScanFailure;
use crate::scan::ScanState;
use crate::scan::find_long;
use crate::scan::find_short;
use crate::scan::lemma_scan_split;
use crate::scan::scan;
use crate::scan::scan_step;
use crate::switch::Switch;
use crate::switch::SwitchView;
use crate::switch::switch_line;

verus! {

/// The model of a failed `build` call.
pub enum ErrorView {
    /// A pending switch's value token was refused; carries the switch's name.
    InvalidValue(Seq<char>),
    /// A bare `--` token.
    InvalidLongSwitch,
    /// A long key that no switch carries.
    UnknownLongSwitch,
    /// A token starting with `-` that is not exactly one dash and one
    /// character.
    InvalidShortSwitch,
    /// A short key that no switch carries.
    UnknownShortSwitch,
    /// The token list ended while a switch still awaited its value.
    SwitchValueExpected,
    /// The collected positionals do not match the declared name list in
    /// number.
    WrongArgumentCount,
}

/// Why a `build` call failed. Every failure aborts the scan; the effects of
/// the tokens before the failing one are kept.
pub enum ArgError {
    /// A pending switch's value token was refused; carries the switch's name.
    InvalidValue(String),
    /// A bare `--` token.
    InvalidLongSwitch,
    /// A long key that no switch carries.
    UnknownLongSwitch,
    /// A token starting with `-` that is not exactly one dash and one
    /// character.
    InvalidShortSwitch,
    /// A short key that no switch carries.
    UnknownShortSwitch,
    /// The token list ended while a switch still awaited its value.
    SwitchValueExpected,
    /// The collected positionals do not match the declared name list in
    /// number.
    WrongArgumentCount,
}

impl View for ArgError {
    type V = ErrorView;

    open spec fn view(&self) -> ErrorView {
        match self {
            ArgError::InvalidValue(name) => ErrorView::InvalidValue(name@),
            ArgError::InvalidLongSwitch => ErrorView::InvalidLongSwitch,
            ArgError::UnknownLongSwitch => ErrorView::UnknownLongSwitch,
            ArgError::InvalidShortSwitch => ErrorView::InvalidShortSwitch,
            ArgError::UnknownShortSwitch => ErrorView::UnknownShortSwitch,
            ArgError::SwitchValueExpected => ErrorView::SwitchValueExpected,
            ArgError::WrongArgumentCount => ErrorView::WrongArgumentCount,
        }
    }
}

/// The error that a scan failure surfaces as.
pub open spec fn failure_error(f: ScanFailure) -> ErrorView {
    match f {
        ScanFailure::InvalidValue(name) => ErrorView::InvalidValue(name),
        ScanFailure::InvalidLongSwitch => ErrorView::InvalidLongSwitch,
        ScanFailure::UnknownLongSwitch => ErrorView::UnknownLongSwitch,
        ScanFailure::InvalidShortSwitch => ErrorView::InvalidShortSwitch,
        ScanFailure::UnknownShortSwitch => ErrorView::UnknownShortSwitch,
    }
}

/// The message text of each error.
pub open spec fn error_text(e: ErrorView) -> Seq<char> {
    match e {
        ErrorView::InvalidValue(name) => "invalid "@ + name + " value"@,
        ErrorView::InvalidLongSwitch => "invalid ext_switch"@,
        ErrorView::UnknownLongSwitch => "unknown ext switch"@,
        ErrorView::InvalidShortSwitch => "invalid switch"@,
        ErrorView::UnknownShortSwitch => "unknown switch"@,
        ErrorView::SwitchValueExpected => "switch value expected"@,
        ErrorView::WrongArgumentCount => "incorrect number of arguments"@,
    }
}

impl ArgError {
    /// A descriptive message for the error.
    pub fn message(&self) -> (r: String)
        ensures
            r@ == error_text(self@),
    {
        match self {
            ArgError::InvalidValue(name) => {
                let mut m: String = "invalid ".to_owned();
                m.append(name.as_str());
                m.append(" value");
                proof {
                    assert(m@ =~= error_text(self@));
                }
                m
            },
            ArgError::InvalidLongSwitch => "invalid ext_switch".to_owned(),
            ArgError::UnknownLongSwitch => "unknown ext switch".to_owned(),
            ArgError::InvalidShortSwitch => "invalid switch".to_owned(),
            ArgError::UnknownShortSwitch => "unknown switch".to_owned(),
            ArgError::SwitchValueExpected => "switch value expected".to_owned(),
            ArgError::WrongArgumentCount => "incorrect number of arguments".to_owned(),
        }
    }
}

/// The model of the argument parser: the program name, the registered
/// switches in registration order, the positionals collected so far, and the
/// declared positional names, if any.
pub struct ArgumentsView {
    pub program_name: Seq<char>,
    pub switches: Seq<SwitchView>,
    pub positionals: Seq<Seq<char>>,
    pub expected: Option<Seq<Seq<char>>>,
}

/// The argument parser: owns the registered switch set and drives the scan of
/// a raw token list, routing each switch occurrence to its handler in the
/// caller's handler table and collecting the remaining tokens as positionals.
pub struct Arguments {
    program_name: String,
    switches: Vec<Switch>,
    other_arguments: Vec<String>,
    other_argument_names: Option<Vec<String>>,
}

impl View for Arguments {
    type V = ArgumentsView;

    closed spec fn view(&self) -> ArgumentsView {
        ArgumentsView {
            program_name: self.program_name@,
            switches: self.switches.deep_view(),
            positionals: self.other_arguments.deep_view(),
            expected: self.other_argument_names.deep_view(),
        }
    }
}

/// The pending switch as the model sees it.
pub open spec fn pending_of(p: Option<usize>) -> Option<int> {
    match p {
        Some(i) => Some(i as int),
        None => None,
    }
}

impl Arguments {
    /// Every registered switch's handler index lies within a handler table of
    /// `n` entries: the scanner's precondition.
    pub open spec fn wf(&self, n: int) -> bool {
        forall|i: int|
            0 <= i < self@.switches.len() ==> 0 <= (#[trigger] self@.switches[i]).handler < n
    }

    /// A new parser over a fixed switch set. `other_argument_names` declares
    /// the expected positional arguments; when given, `build` checks the
    /// count of collected positionals against it.
    pub fn new(program_name: &str, switches: Vec<Switch>, other_argument_names: Option<
        Vec<String>,
    >) -> (r: Arguments)
        ensures
            r@ == (ArgumentsView {
                program_name: program_name@,
                switches: switches.deep_view(),
                positionals: Seq::<Seq<char>>::empty(),
                expected: other_argument_names.deep_view(),
            }),
    {
        let r = Arguments {
            program_name: program_name.to_owned(),
            switches,
            other_arguments: Vec::new(),
            other_argument_names,
        };
        proof {
            assert(r.other_arguments.deep_view() =~= Seq::<Seq<char>>::empty());
        }
        r
    }

    /// Whether every switch's handler index lies within the given handler
    /// table: decides the scanner's precondition at run time.
    pub fn check_handlers(&self, handlers: &Vec<ValueHandler>) -> (r: bool)
        ensures
            r == self.wf(handlers@.len() as int),
    {
        let mut i: usize = 0;
        while i < self.switches.len()
            invariant
                i <= self.switches@.len(),
                forall|j: int|
                    0 <= j < i ==> 0 <= (#[trigger] self@.switches[j]).handler < handlers@.len(),
            decreases self.switches@.len() - i,
        {
            if self.switches[i].handler_index() >= handlers.len() {
                proof {
                    assert(self@.switches[i as int].handler >= handlers@.len());
                }
                return false;
            }
            i += 1;
        }
        true
    }

    /// The registered switch with the given short key: the last one, when
    /// several collide.
    fn find_switch(&self, c: char) -> (r: Option<usize>)
        ensures
            (match r {
                Some(i) => i < self.switches@.len() && find_short(self@.switches, c) == Some(
                    i as int,
                ),
                None => find_short(self@.switches, c) is None,
            }),
    {
        let mut res: Option<usize> = None;
        let mut i: usize = 0;
        while i < self.switches.len()
            invariant
                i <= self.switches@.len(),
                (match res {
                    Some(j) => j < i && find_short(self@.switches.take(i as int), c) == Some(
                        j as int,
                    ),
                    None => find_short(self@.switches.take(i as int), c) is None,
                }),
            decreases self.switches@.len() - i,
        {
            proof {
                assert(self@.switches.take(i as int + 1).drop_last() =~= self@.switches.take(
                    i as int,
                ));
                assert(self@.switches.take(i as int + 1).last() == self@.switches[i as int]);
            }
            if let Some(c2) = self.switches[i].short_key() {
                if c2 == c {
                    res = Some(i);
                }
            }
            i += 1;
        }
        proof {
            assert(self@.switches.take(self.switches@.len() as int) =~= self@.switches);
        }
        res
    }

    /// The registered switch with the given long key: the last one, when
    /// several collide.
    fn find_ext_switch(&self, key: &String) -> (r: Option<usize>)
        ensures
            (match r {
                Some(i) => i < self.switches@.len() && find_long(self@.switches, key@) == Some(
                    i as int,
                ),
                None => find_long(self@.switches, key@) is None,
            }),
    {
        let mut res: Option<usize> = None;
        let mut i: usize = 0;
        while i < self.switches.len()
            invariant
                i <= self.switches@.len(),
                (match res {
                    Some(j) => j < i && find_long(self@.switches.take(i as int), key@) == Some(
                        j as int,
                    ),
                    None => find_long(self@.switches.take(i as int), key@) is None,
                }),
            decreases self.switches@.len() - i,
        {
            proof {
                assert(self@.switches.take(i as int + 1).drop_last() =~= self@.switches.take(
                    i as int,
                ));
                assert(self@.switches.take(i as int + 1).last() == self@.switches[i as int]);
            }
            if self.switches[i].long_key_matches(key) {
                res = Some(i);
            }
            i += 1;
        }
        proof {
            assert(self@.switches.take(self.switches@.len() as int) =~= self@.switches);
        }
        res
    }

    /// Scan the raw token list, left to right. A pending switch consumes the
    /// token as its value; otherwise `--key` selects a switch by its long
    /// key, `-c` by its short key (a value-requiring switch then awaits the
    /// next token, a flag is set at once), and any other token is collected
    /// as a positional argument. The first failure aborts the scan with its
    /// error; the effects of the tokens before it are kept. After a full
    /// scan, a still-pending switch or a positional count that contradicts
    /// the declared name list is an error too.
    pub fn build(&mut self, handlers: &mut Vec<ValueHandler>, args: Vec<String>) -> (r: Result<
        (),
        ArgError,
    >)
        requires
            old(self).wf(old(handlers)@.len() as int),
        ensures
            final(self)@.program_name == old(self)@.program_name,
            final(self)@.switches == old(self)@.switches,
            final(self)@.expected == old(self)@.expected,
            ({
                let outcome = scan(
                    old(self)@.switches,
                    ScanState {
                        handlers: old(handlers).deep_view(),
                        positionals: old(self)@.positionals,
                        pending: None,
                    },
                    args.deep_view(),
                );
                &&& final(handlers).deep_view() == outcome.0.handlers
                &&& final(self)@.positionals == outcome.0.positionals
                &&& match outcome.1 {
                    Some(f) => r matches Err(e) && e@ == failure_error(f),
                    None => if outcome.0.pending is Some {
                        r matches Err(e) && e@ == ErrorView::SwitchValueExpected
                    } else if old(self)@.expected matches Some(names) && names.len()
                        != outcome.0.positionals.len() {
                        r matches Err(e) && e@ == ErrorView::WrongArgumentCount
                    } else {
                        r is Ok
                    },
                }
            }),
    {
        let ghost ss = old(self)@.switches;
        let ghost init = (ScanState {
            handlers: old(handlers).deep_view(),
            positionals: old(self)@.positionals,
            pending: None,
        });
        let ghost toks = args.deep_view();
        let mut pending: Option<usize> = None;
        let mut k: usize = 0;
        while k < args.len()
            invariant
                k <= args@.len(),
                toks == args.deep_view(),
                toks.len() == args@.len(),
                ss == old(self)@.switches,
                init == (ScanState {
                    handlers: old(handlers).deep_view(),
                    positionals: old(self)@.positionals,
                    pending: None,
                }),
                self@.switches == ss,
                self@.program_name == old(self)@.program_name,
                self@.expected == old(self)@.expected,
                handlers@.len() == old(handlers)@.len(),
                self.wf(handlers@.len() as int),
                (match pending {
                    Some(p) => p < self.switches@.len(),
                    None => true,
                }),
                scan(ss, init, toks.take(k as int)) == ((ScanState {
                    handlers: handlers.deep_view(),
                    positionals: self@.positionals,
                    pending: pending_of(pending),
                }), None::<ScanFailure>),
            decreases args@.len() - k,
        {
            let ghost cur = (ScanState {
                handlers: handlers.deep_view(),
                positionals: self@.positionals,
                pending: pending_of(pending),
            });
            let ghost tok = toks[k as int];
            let arg = &args[k];
            proof {
                assert(arg@ == tok);
                assert(toks.take(k as int + 1) =~= toks.take(k as int) + seq![tok]);
                lemma_scan_split(ss, init, toks.take(k as int), seq![tok]);
                assert(seq![tok][0] == tok);
                assert(seq![tok].skip(1) =~= Seq::<Seq<char>>::empty());
                if scan_step(ss, cur, tok).1 is None {
                    // a clean step: the scan over one more token lands in the
                    // stepped state
                    let stepped0 = scan_step(ss, cur, tok).0;
                    assert(seq![tok].len() == 1);
                    assert(scan(ss, stepped0, Seq::<Seq<char>>::empty()) == (stepped0, None::<
                        ScanFailure,
                    >));
                    assert(scan(ss, cur, seq![tok]) == scan(ss, stepped0, seq![tok].skip(1)));
                    assert(scan(ss, cur, seq![tok]) == (stepped0, None::<ScanFailure>));
                    assert(scan(ss, init, toks.take(k as int + 1)) == (stepped0, None::<
                        ScanFailure,
                    >));
                } else {
                    // a failing step: the whole scan fails right here
                    assert(toks =~= toks.take(k as int) + toks.skip(k as int));
                    lemma_scan_split(ss, init, toks.take(k as int), toks.skip(k as int));
                    assert(toks.skip(k as int)[0] == tok);
                    assert(scan(ss, cur, toks.skip(k as int)) == scan_step(ss, cur, tok));
                    assert(scan(ss, init, toks) == scan_step(ss, cur, tok));
                }
            }
            if let Some(p) = pending {
                let sw = &self.switches[p];
                proof {
                    assert(sw@ == ss[p as int]);
                }
                let ok = sw.parse_value(handlers, arg.as_str());
                proof {
                    assert(handlers.deep_view().len() == cur.handlers.len());
                    assert(handlers@.len() == handlers.deep_view().len());
                }
                if !ok {
                    return Err(ArgError::InvalidValue(sw.name()));
                }
                pending = None;
            } else {
                let a = arg.as_str();
                let n = a.unicode_len();
                if n >= 1 && a.get_char(0) == '-' {
                    if n >= 2 && a.get_char(1) == '-' {
                        if n == 2 {
                            return Err(ArgError::InvalidLongSwitch);
                        }
                        let key = a.substring_char(2, n).to_owned();
                        proof {
                            assert(key@ =~= tok.skip(2));
                        }
                        match self.find_ext_switch(&key) {
                            Some(i) => {
                                let sw = &self.switches[i];
                                proof {
                                    assert(sw@ == ss[i as int]);
                                }
                                if sw.requires_value(handlers) {
                                    pending = Some(i);
                                } else {
                                    sw.set_value(handlers);
                                    proof {
                                        assert(handlers.deep_view().len() == cur.handlers.len());
                                        assert(handlers@.len() == handlers.deep_view().len());
                                    }
                                }
                            },
                            None => {
                                return Err(ArgError::UnknownLongSwitch);
                            },
                        }
                    } else {
                        if n != 2 {
                            return Err(ArgError::InvalidShortSwitch);
                        }
                        let c = a.get_char(1);
                        match self.find_switch(c) {
                            Some(i) => {
                                let sw = &self.switches[i];
                                proof {
                                    assert(sw@ == ss[i as int]);
                                }
                                if sw.requires_value(handlers) {
                                    pending = Some(i);
                                } else {
                                    sw.set_value(handlers);
                                    proof {
                                        assert(handlers.deep_view().len() == cur.handlers.len());
                                        assert(handlers@.len() == handlers.deep_view().len());
                                    }
                                }
                            },
                            None => {
                                return Err(ArgError::UnknownShortSwitch);
                            },
                        }
                    }
                } else {
                    self.other_arguments.push(arg.clone());
                    proof {
                        assert(self@.positionals =~= cur.positionals.push(tok));
                    }
                }
            }
            k += 1;
        }
        proof {
            assert(toks.take(toks.len() as int) =~= toks);
        }
        if pending.is_some() {
            return Err(ArgError::SwitchValueExpected);
        }
        if let Some(names) = &self.other_argument_names {
            proof {
                assert(names.deep_view().len() == names@.len());
            }
            if names.len() != self.other_arguments.len() {
                return Err(ArgError::WrongArgumentCount);
            }
        }
        Ok(())
    }

    /// The positional arguments collected by `build`, in input order.
    pub fn get_other_arguments(&self) -> (r: &Vec<String>)
        ensures
            r.deep_view() == self@.positionals,
    {
        &self.other_arguments
    }

    /// The usage text: `Usage: <program_name>` with the declared positional
    /// names behind it, then one line per registered switch, the short-keyed
    /// ones first, then the long-keyed ones (a switch with both keys appears
    /// twice). The caller prints it.
    pub fn usage(&self, handlers: &Vec<ValueHandler>) -> (r: String)
        requires
            self.wf(handlers@.len() as int),
        ensures
            r@ == usage_text(self@, handlers.deep_view()),
    {
        let mut u: String = "Usage: ".to_owned();
        u.append(self.program_name.as_str());
        if let Some(names) = &self.other_argument_names {
            let mut i: usize = 0;
            while i < names.len()
                invariant
                    i <= names@.len(),
                    self@.expected == Some(names.deep_view()),
                    u@ == "Usage: "@ + self@.program_name + names_join(names.deep_view().take(
                        i as int,
                    )),
                decreases names@.len() - i,
            {
                proof {
                    assert(names.deep_view().take(i as int + 1).drop_last() =~= names.deep_view()
                        .take(i as int));
                    assert(names.deep_view().take(i as int + 1).last() == names@[i as int]@);
                }
                u.append(" ");
                u.append(names[i].as_str());
                proof {
                    assert(u@ =~= "Usage: "@ + self@.program_name + names_join(
                        names.deep_view().take(i as int + 1),
                    ));
                }
                i += 1;
            }
            proof {
                assert(names.deep_view().take(names@.len() as int) =~= names.deep_view());
            }
        }
        u.append("\n");
        proof {
            assert(u@ =~= "Usage: "@ + self@.program_name + names_text(self@.expected) + "\n"@);
        }
        let ghost header = u@;
        let mut i: usize = 0;
        while i < self.switches.len()
            invariant
                i <= self.switches@.len(),
                self.wf(handlers@.len() as int),
                header == "Usage: "@ + self@.program_name + names_text(self@.expected) + "\n"@,
                u@ == header + short_lines(self@.switches.take(i as int), handlers.deep_view()),
            decreases self.switches@.len() - i,
        {
            proof {
                assert(self@.switches.take(i as int + 1).drop_last() =~= self@.switches.take(
                    i as int,
                ));
                assert(self@.switches.take(i as int + 1).last() == self@.switches[i as int]);
            }
            let sw = &self.switches[i];
            if sw.short_key().is_some() {
                let line = sw.to_string(handlers);
                u.append(line.as_str());
                u.append("\n");
            }
            proof {
                assert(u@ =~= header + short_lines(
                    self@.switches.take(i as int + 1),
                    handlers.deep_view(),
                ));
            }
            i += 1;
        }
        proof {
            assert(self@.switches.take(self.switches@.len() as int) =~= self@.switches);
        }
        let ghost with_short = u@;
        let mut i: usize = 0;
        while i < self.switches.len()
            invariant
                i <= self.switches@.len(),
                self.wf(handlers@.len() as int),
                with_short == header + short_lines(self@.switches, handlers.deep_view()),
                header == "Usage: "@ + self@.program_name + names_text(self@.expected) + "\n"@,
                u@ == with_short + long_lines(self@.switches.take(i as int), handlers.deep_view()),
            decreases self.switches@.len() - i,
        {
            proof {
                assert(self@.switches.take(i as int + 1).drop_last() =~= self@.switches.take(
                    i as int,
                ));
                assert(self@.switches.take(i as int + 1).last() == self@.switches[i as int]);
            }
            let sw = &self.switches[i];
            if sw.has_long_key() {
                let line = sw.to_string(handlers);
                u.append(line.as_str());
                u.append("\n");
            }
            proof {
                assert(u@ =~= with_short + long_lines(
                    self@.switches.take(i as int + 1),
                    handlers.deep_view(),
                ));
            }
            i += 1;
        }
        proof {
            assert(self@.switches.take(self.switches@.len() as int) =~= self@.switches);
            assert(u@ =~= usage_text(self@, handlers.deep_view()));
        }
        u
    }
}

/// The declared positional names, each behind one space, for the usage
/// header.
pub open spec fn names_join(ns: Seq<Seq<char>>) -> Seq<char>
    decreases ns.len(),
{
    if ns.len() == 0 {
        Seq::empty()
    } else {
        names_join(ns.drop_last()) + " "@ + ns.last()
    }
}

/// The usage header's positional-name part: empty when no names were
/// declared.
pub open spec fn names_text(expected: Option<Seq<Seq<char>>>) -> Seq<char> {
    match expected {
        Some(ns) => names_join(ns),
        None => Seq::empty(),
    }
}

/// One usage line, with its terminator, for every switch with a short key, in
/// registration order.
pub open spec fn short_lines(ss: Seq<SwitchView>, hs: Seq<crate::handlers::HandlerView>) -> Seq<
    char,
>
    decreases ss.len(),
{
    if ss.len() == 0 {
        Seq::empty()
    } else {
        short_lines(ss.drop_last(), hs) + if ss.last().switch is Some {
            switch_line(ss.last(), hs[ss.last().handler]) + "\n"@
        } else {
            Seq::<char>::empty()
        }
    }
}

/// One usage line, with its terminator, for every switch with a long key, in
/// registration order.
pub open spec fn long_lines(ss: Seq<SwitchView>, hs: Seq<crate::handlers::HandlerView>) -> Seq<
    char,
>
    decreases ss.len(),
{
    if ss.len() == 0 {
        Seq::empty()
    } else {
        long_lines(ss.drop_last(), hs) + if ss.last().ext_switch is Some {
            switch_line(ss.last(), hs[ss.last().handler]) + "\n"@
        } else {
            Seq::<char>::empty()
        }
    }
}

/// The whole usage text: the header with the program name and the declared
/// positional names, then the switch lines.
pub open spec fn usage_text(a: ArgumentsView, hs: Seq<crate::handlers::HandlerView>) -> Seq<char> {
    "Usage: "@ + a.program_name + names_text(a.expected) + "\n"@ + short_lines(a.switches, hs)
        + long_lines(a.switches, hs)
}

} // verus!
