//! A switch: a named command-line option bound to one value handler.

use vstd::prelude::*;

use crate::handlers::HandlerView;
use crate::handlers::ValueHandler;
use crate::handlers::parse_ok_spec;
use crate::handlers::parse_step_spec;
use crate::handlers::requires_value_spec;
use crate::handlers::set_step_spec;
use crate::handlers::value_type_spec;
use crate::strutil::push_char;

verus! {

/// The model of a switch: its display name, its optional short and long
/// spellings, and the index of its handler in the caller's handler table.
pub struct SwitchView {
    pub name: Seq<char>,
    pub switch: Option<char>,
    pub ext_switch: Option<Seq<char>>,
    pub handler: int,
}

/// A switch binds a display name to an optional single-character short form,
/// an optional long form, and exactly one value handler, referred to by its
/// index in a handler table the caller owns.
pub struct Switch {
    name: String,
    switch: Option<char>,
    ext_switch: Option<String>,
    handler: usize,
}

impl View for Switch {
    type V = SwitchView;

    closed spec fn view(&self) -> SwitchView {
        SwitchView {
            name: self.name@,
            switch: self.switch,
            ext_switch: self.ext_switch.deep_view(),
            handler: self.handler as int,
        }
    }
}

impl DeepView for Switch {
    type V = SwitchView;

    open spec fn deep_view(&self) -> SwitchView {
        self.view()
    }
}

/// How the usage text spells a switch's keys: the short form first, the long
/// form behind it in parentheses, or the long form alone.
pub open spec fn switch_keys_text(sw: SwitchView) -> Seq<char> {
    match sw.switch {
        Some(c) => " -"@ + seq![c] + (match sw.ext_switch {
            Some(l) => " (or --"@ + l + ")"@,
            None => Seq::<char>::empty(),
        }),
        None => match sw.ext_switch {
            Some(l) => " --"@ + l,
            None => Seq::<char>::empty(),
        },
    }
}

/// One switch's line in the usage text: its keys, its handler's type label,
/// and its display name.
pub open spec fn switch_line(sw: SwitchView, h: HandlerView) -> Seq<char> {
    switch_keys_text(sw) + value_type_spec(h) + " - "@ + sw.name
}

impl Switch {
    /// A new switch. `handler` is the index of its value handler in the
    /// handler table that the caller will pass to the scanner.
    pub fn new(name: &str, switch: Option<char>, ext_switch: Option<&str>, handler: usize) -> (r:
        Switch)
        ensures
            r@ == (SwitchView {
                name: name@,
                switch,
                ext_switch: match ext_switch {
                    Some(l) => Some(l@),
                    None => None,
                },
                handler: handler as int,
            }),
    {
        Switch {
            name: name.to_owned(),
            switch,
            ext_switch: match ext_switch {
                Some(l) => Some(l.to_owned()),
                None => None,
            },
            handler,
        }
    }

    /// The switch's line in the usage text.
    pub fn to_string(&self, handlers: &Vec<ValueHandler>) -> (r: String)
        requires
            0 <= self@.handler < handlers@.len(),
        ensures
            r@ == switch_line(self@, handlers.deep_view()[self@.handler]),
    {
        let mut result = String::new();
        match self.switch {
            Some(c) => {
                result.append(" -");
                push_char(&mut result, c);
                proof {
                    assert(result@ =~= " -"@ + seq![c]);
                }
                match &self.ext_switch {
                    Some(l) => {
                        result.append(" (or --");
                        result.append(l.as_str());
                        result.append(")");
                        proof {
                            assert(result@ =~= switch_keys_text(self@));
                        }
                    },
                    None => {
                        proof {
                            assert(result@ =~= switch_keys_text(self@));
                        }
                    },
                }
            },
            None => {
                match &self.ext_switch {
                    Some(l) => {
                        result.append(" --");
                        result.append(l.as_str());
                        proof {
                            assert(result@ =~= switch_keys_text(self@));
                        }
                    },
                    None => {
                        proof {
                            assert(result@ =~= switch_keys_text(self@));
                        }
                    },
                }
            },
        }
        let vt = self.handler_ref(handlers).value_type();
        result.append(vt.as_str());
        result.append(" - ");
        result.append(self.name.as_str());
        proof {
            assert(result@ =~= switch_line(self@, handlers.deep_view()[self@.handler]));
        }
        result
    }

    /// The switch's handler within the caller's handler table.
    pub fn handler_ref<'a>(&self, handlers: &'a Vec<ValueHandler>) -> (r: &'a ValueHandler)
        requires
            0 <= self@.handler < handlers@.len(),
        ensures
            r@ == handlers.deep_view()[self@.handler],
    {
        &handlers[self.handler]
    }

    /// The index of the switch's handler in the caller's handler table.
    pub fn handler_index(&self) -> (r: usize)
        ensures
            r as int == self@.handler,
    {
        self.handler
    }

    /// The switch's display name.
    pub fn name(&self) -> (r: String)
        ensures
            r@ == self@.name,
    {
        self.name.clone()
    }

    /// The switch's short key, when it has one.
    pub fn short_key(&self) -> (r: Option<char>)
        ensures
            r == self@.switch,
    {
        self.switch
    }

    /// Whether the switch's long key is exactly `key`.
    pub fn long_key_matches(&self, key: &String) -> (r: bool)
        ensures
            r == (self@.ext_switch == Some(key@)),
    {
        match &self.ext_switch {
            Some(l) => *l == *key,
            None => false,
        }
    }

    /// Whether the switch has a long key at all.
    pub fn has_long_key(&self) -> (r: bool)
        ensures
            r == (self@.ext_switch is Some),
    {
        self.ext_switch.is_some()
    }

    /// Feed a value token to the switch's handler; say whether it was
    /// committed.
    pub fn parse_value(&self, handlers: &mut Vec<ValueHandler>, value: &str) -> (r: bool)
        requires
            0 <= self@.handler < old(handlers)@.len(),
        ensures
            r == parse_ok_spec(old(handlers).deep_view()[self@.handler], value@),
            final(handlers).deep_view() == old(handlers).deep_view().update(
                self@.handler,
                parse_step_spec(old(handlers).deep_view()[self@.handler], value@),
            ),
    {
        let r = handlers[self.handler].parse_value(value);
        proof {
            assert(final(handlers).deep_view() =~= old(handlers).deep_view().update(
                self@.handler,
                parse_step_spec(old(handlers).deep_view()[self@.handler], value@),
            ));
        }
        r
    }

    /// Whether the switch's handler consumes a following value token.
    pub fn requires_value(&self, handlers: &Vec<ValueHandler>) -> (r: bool)
        requires
            0 <= self@.handler < handlers@.len(),
        ensures
            r == requires_value_spec(handlers.deep_view()[self@.handler]),
    {
        handlers[self.handler].requires_value()
    }

    /// Tell the switch's handler that its switch occurred bare, with no value
    /// token.
    pub fn set_value(&self, handlers: &mut Vec<ValueHandler>)
        requires
            0 <= self@.handler < old(handlers)@.len(),
        ensures
            final(handlers).deep_view() == old(handlers).deep_view().update(
                self@.handler,
                set_step_spec(old(handlers).deep_view()[self@.handler]),
            ),
    {
        handlers[self.handler].set_value();
        proof {
            assert(final(handlers).deep_view() =~= old(handlers).deep_view().update(
                self@.handler,
                set_step_spec(old(handlers).deep_view()[self@.handler]),
            ));
        }
    }
}

} // verus!
