//! Typed value handlers.
//!
//! A handler holds one typed value, knows how to parse a textual value into
//! it (with validation), whether it consumes a following token at all, and a
//! short description of its type for the usage text. Five kinds exist:
//! integer, size with unit suffix, free string, enumerated string, and
//! boolean presence flag.

use vstd::prelude::*;

use crate::numtext::int_of_text;
use crate::numtext::size_of_text;

verus! {

/// A validator over parsed integer values: a bound, a range, or no
/// constraint. Applied to the value an integer or size handler parsed, before
/// the handler commits it.
#[derive(Clone, Copy, PartialEq, Eq, Structural)]
pub enum Validator {
    /// Accepts every value.
    Any,
    /// Accepts values not below the bound.
    AtLeast(isize),
    /// Accepts values not above the bound.
    AtMost(isize),
    /// Accepts values between the two bounds, inclusive.
    Between(isize, isize),
}

impl Validator {
    /// Which values the validator accepts.
    pub open spec fn spec_accepts(self, v: int) -> bool {
        match self {
            Validator::Any => true,
            Validator::AtLeast(lo) => lo <= v,
            Validator::AtMost(hi) => v <= hi,
            Validator::Between(lo, hi) => lo <= v && v <= hi,
        }
    }

    /// Decide whether the validator accepts `v`.
    pub fn accepts(&self, v: isize) -> (r: bool)
        ensures
            r == self.spec_accepts(v as int),
    {
        match self {
            Validator::Any => true,
            Validator::AtLeast(lo) => *lo <= v,
            Validator::AtMost(hi) => v <= *hi,
            Validator::Between(lo, hi) => *lo <= v && v <= *hi,
        }
    }
}

/// The model of an integer or size handler: its current value and its
/// validator.
pub struct IntView {
    pub value: int,
    pub validator: Validator,
}

/// The model of a free-string handler: its current text.
pub struct TextView {
    pub value: Seq<char>,
}

/// The model of an enumerated-string handler: the allowed members and the
/// current member.
pub struct ChoiceView {
    pub values: Seq<Seq<char>>,
    pub value: Seq<char>,
}

/// The model of a presence flag: whether it has been seen.
pub struct FlagView {
    pub value: bool,
}

/// The model of any value handler.
pub enum HandlerView {
    Int(IntView),
    Size(IntView),
    Text(TextView),
    Choice(ChoiceView),
    Flag(FlagView),
}

/// Whether a handler in this state consumes a following value token: every
/// typed handler does, only the presence flag does not.
pub open spec fn requires_value_spec(h: HandlerView) -> bool {
    !(h is Flag)
}

/// Whether feeding the text `t` to a handler in state `h` commits a new
/// value.
pub open spec fn parse_ok_spec(h: HandlerView, t: Seq<char>) -> bool {
    match h {
        HandlerView::Int(iv) => int_of_text(t) matches Some(v) && iv.validator.spec_accepts(v),
        HandlerView::Size(iv) => size_of_text(t) matches Some(v) && iv.validator.spec_accepts(v),
        HandlerView::Text(_) => true,
        HandlerView::Choice(cv) => cv.values.contains(t),
        HandlerView::Flag(_) => false,
    }
}

/// The handler state after feeding it the text `t`: the parsed value exactly
/// when the parse commits, the old state otherwise.
pub open spec fn parse_step_spec(h: HandlerView, t: Seq<char>) -> HandlerView {
    if !parse_ok_spec(h, t) {
        h
    } else {
        match h {
            HandlerView::Int(iv) => HandlerView::Int(
                IntView { value: int_of_text(t)->Some_0, validator: iv.validator },
            ),
            HandlerView::Size(iv) => HandlerView::Size(
                IntView { value: size_of_text(t)->Some_0, validator: iv.validator },
            ),
            HandlerView::Text(_) => HandlerView::Text(TextView { value: t }),
            HandlerView::Choice(cv) => HandlerView::Choice(
                ChoiceView { values: cv.values, value: t },
            ),
            HandlerView::Flag(fv) => HandlerView::Flag(fv),
        }
    }
}

/// The handler state after a bare occurrence of its switch: the flag is set,
/// every typed handler is untouched.
pub open spec fn set_step_spec(h: HandlerView) -> HandlerView {
    match h {
        HandlerView::Flag(_) => HandlerView::Flag(FlagView { value: true }),
        _ => h,
    }
}

/// Law: parsing changes a handler's value, never its kind: whether it
/// consumes a value token is stable under parsing.
pub proof fn lemma_parse_keeps_kind(h: HandlerView, t: Seq<char>)
    ensures
        requires_value_spec(parse_step_spec(h, t)) == requires_value_spec(h),
{
}

/// Law: whether a parse commits depends on the text, the validator and the
/// allowed members alone, never on the value a handler currently holds; so a
/// parse that already happened cannot change what a later text does.
pub proof fn lemma_parse_ok_state_independent(h: HandlerView, t1: Seq<char>, t2: Seq<char>)
    ensures
        parse_ok_spec(parse_step_spec(h, t1), t2) == parse_ok_spec(h, t2),
{
}

/// Law: the last successful parse wins. When a later text commits, the state
/// after both parses is the state after the later one alone: earlier
/// occurrences of a switch are overwritten.
pub proof fn lemma_last_parse_wins(h: HandlerView, t1: Seq<char>, t2: Seq<char>)
    requires
        parse_ok_spec(h, t2),
    ensures
        parse_step_spec(parse_step_spec(h, t1), t2) == parse_step_spec(h, t2),
{
}

/// An integer handler: holds a signed integer, parses decimal text, and
/// commits only values its validator accepts.
pub struct IntParameter {
    value: isize,
    validator: Validator,
}

impl View for IntParameter {
    type V = IntView;

    closed spec fn view(&self) -> IntView {
        IntView { value: self.value as int, validator: self.validator }
    }
}

impl IntParameter {
    /// A new integer handler with a starting value and a validator.
    pub fn new(value: isize, validator: Validator) -> (r: IntParameter)
        ensures
            r@ == (IntView { value: value as int, validator }),
    {
        IntParameter { value, validator }
    }

    /// The value the handler currently holds.
    pub fn get_value(&self) -> (r: isize)
        ensures
            r as int == self@.value,
    {
        self.value
    }

    /// Parse a decimal integer out of `value` and commit it when both the
    /// parse and the validator succeed.
    pub fn parse_value(&mut self, value: &str) -> (r: bool)
        ensures
            r == parse_ok_spec(HandlerView::Int(old(self)@), value@),
            HandlerView::Int(final(self)@) == parse_step_spec(HandlerView::Int(old(self)@), value@),
    {
        match crate::numtext::parse_int(value) {
            Some(v) => {
                if self.validator.accepts(v) {
                    self.value = v;
                    true
                } else {
                    false
                }
            },
            None => false,
        }
    }

    /// Every integer handler consumes a following value token.
    pub fn requires_value(&self) -> (r: bool)
        ensures
            r,
    {
        true
    }

    /// Nothing to do: only a presence flag reacts to a bare occurrence.
    pub fn set_value(&mut self)
        ensures
            *final(self) == *old(self),
    {
    }

    /// The type label shown in the usage text.
    pub fn value_type(&self) -> (r: String)
        ensures
            r@ == " int"@,
    {
        " int".to_owned()
    }
}

/// A size handler: holds a byte count, parses decimal text with an optional
/// `K`, `M` or `G` suffix, and commits only scaled values its validator
/// accepts.
pub struct SizeParameter {
    value: isize,
    validator: Validator,
}

impl View for SizeParameter {
    type V = IntView;

    closed spec fn view(&self) -> IntView {
        IntView { value: self.value as int, validator: self.validator }
    }
}

impl SizeParameter {
    /// A new size handler with a starting value and a validator.
    pub fn new(value: isize, validator: Validator) -> (r: SizeParameter)
        ensures
            r@ == (IntView { value: value as int, validator }),
    {
        SizeParameter { value, validator }
    }

    /// The value the handler currently holds.
    pub fn get_value(&self) -> (r: isize)
        ensures
            r as int == self@.value,
    {
        self.value
    }

    /// Parse a size out of `value` and commit it when both the parse and the
    /// validator succeed.
    pub fn parse_value(&mut self, value: &str) -> (r: bool)
        ensures
            r == parse_ok_spec(HandlerView::Size(old(self)@), value@),
            HandlerView::Size(final(self)@) == parse_step_spec(HandlerView::Size(old(self)@), value@),
    {
        match crate::numtext::parse_size(value) {
            Some(v) => {
                if self.validator.accepts(v) {
                    self.value = v;
                    true
                } else {
                    false
                }
            },
            None => false,
        }
    }

    /// Every size handler consumes a following value token.
    pub fn requires_value(&self) -> (r: bool)
        ensures
            r,
    {
        true
    }

    /// Nothing to do: only a presence flag reacts to a bare occurrence.
    pub fn set_value(&mut self)
        ensures
            *final(self) == *old(self),
    {
    }

    /// The type label shown in the usage text.
    pub fn value_type(&self) -> (r: String)
        ensures
            r@ == " size"@,
    {
        " size".to_owned()
    }
}

/// A free-string handler: accepts any text.
pub struct StringParameter {
    value: String,
}

impl View for StringParameter {
    type V = TextView;

    closed spec fn view(&self) -> TextView {
        TextView { value: self.value@ }
    }
}

impl StringParameter {
    /// A new string handler with a starting text.
    pub fn new(value: &str) -> (r: StringParameter)
        ensures
            r@ == (TextView { value: value@ }),
    {
        StringParameter { value: value.to_owned() }
    }

    /// The text the handler currently holds.
    pub fn get_value(&self) -> (r: String)
        ensures
            r@ == self@.value,
    {
        self.value.clone()
    }

    /// Commit `value` unconditionally: every text is accepted.
    pub fn parse_value(&mut self, value: &str) -> (r: bool)
        ensures
            r == parse_ok_spec(HandlerView::Text(old(self)@), value@),
            HandlerView::Text(final(self)@) == parse_step_spec(HandlerView::Text(old(self)@), value@),
    {
        self.value = value.to_owned();
        true
    }

    /// Every string handler consumes a following value token.
    pub fn requires_value(&self) -> (r: bool)
        ensures
            r,
    {
        true
    }

    /// Nothing to do: only a presence flag reacts to a bare occurrence.
    pub fn set_value(&mut self)
        ensures
            *final(self) == *old(self),
    {
    }

    /// The type label shown in the usage text.
    pub fn value_type(&self) -> (r: String)
        ensures
            r@ == " string"@,
    {
        " string".to_owned()
    }
}

/// The allowed members of an enumerated handler, joined by `|`, for the usage
/// text.
pub open spec fn pipe_join(vals: Seq<Seq<char>>) -> Seq<char>
    decreases vals.len(),
{
    if vals.len() == 0 {
        Seq::empty()
    } else if vals.len() == 1 {
        vals[0]
    } else {
        pipe_join(vals.drop_last()) + seq!['|'] + vals.last()
    }
}

/// A member list with repeated members dropped: each distinct member stands
/// once, at its first position.
pub open spec fn distinct_members(vals: Seq<Seq<char>>) -> Seq<Seq<char>>
    decreases vals.len(),
{
    if vals.len() == 0 {
        Seq::empty()
    } else if vals.drop_last().contains(vals.last()) {
        distinct_members(vals.drop_last())
    } else {
        distinct_members(vals.drop_last()).push(vals.last())
    }
}

/// Law: dropping repeated members loses no member and invents none, so the
/// handler accepts exactly what the given list accepts.
pub proof fn lemma_distinct_members_same_membership(vals: Seq<Seq<char>>, t: Seq<char>)
    ensures
        distinct_members(vals).contains(t) == vals.contains(t),
    decreases vals.len(),
{
    if vals.len() > 0 {
        let pre = vals.drop_last();
        lemma_distinct_members_same_membership(pre, t);
        if pre.contains(t) {
            let j = choose|j: int| 0 <= j < pre.len() && pre[j] == t;
            assert(vals[j] == t);
        }
        if vals.contains(t) {
            let j = choose|j: int| 0 <= j < vals.len() && vals[j] == t;
            if j < vals.len() - 1 {
                assert(pre[j] == t);
            }
        }
        if !pre.contains(vals.last()) {
            let d = distinct_members(pre).push(vals.last());
            assert(distinct_members(pre).contains(t) ==> d.contains(t)) by {
                if distinct_members(pre).contains(t) {
                    let j = choose|j: int|
                        0 <= j < distinct_members(pre).len() && distinct_members(pre)[j] == t;
                    assert(d[j] == t);
                }
            }
            assert(d.contains(t) ==> distinct_members(pre).contains(t) || vals.last() == t) by {
                if d.contains(t) {
                    let j = choose|j: int| 0 <= j < d.len() && d[j] == t;
                    if j < d.len() - 1 {
                        assert(distinct_members(pre)[j] == t);
                    }
                }
            }
            assert(d.contains(vals.last())) by {
                assert(d[d.len() - 1] == vals.last());
            }
        }
    }
}

/// Law: the deduplicated member list holds no member twice.
pub proof fn lemma_distinct_members_unique(vals: Seq<Seq<char>>, i: int, j: int)
    requires
        0 <= i < j < distinct_members(vals).len(),
    ensures
        distinct_members(vals)[i] != distinct_members(vals)[j],
    decreases vals.len(),
{
    let d = distinct_members(vals);
    let pre = vals.drop_last();
    if !pre.contains(vals.last()) && j == d.len() - 1 {
        // d[j] is the last member, new to the list; d[i] was already a member
        // of the earlier part, so it cannot be that newcomer
        assert(d[i] == distinct_members(pre)[i]);
        assert(distinct_members(pre).contains(distinct_members(pre)[i]));
        lemma_distinct_members_same_membership(pre, d[i]);
        assert(pre.contains(d[i]));
    } else {
        lemma_distinct_members_unique(pre, i, j);
    }
}

/// Whether `items` holds a member equal to `text`.
fn contains_text(items: &Vec<String>, text: &String) -> (r: bool)
    ensures
        r == items.deep_view().contains(text@),
{
    let mut found = false;
    let mut i: usize = 0;
    while i < items.len()
        invariant
            i <= items@.len(),
            found == items.deep_view().take(i as int).contains(text@),
        decreases items@.len() - i,
    {
        proof {
            assert(items.deep_view()[i as int] == items@[i as int]@);
            assert(items.deep_view().take(i as int + 1).drop_last() =~= items.deep_view().take(
                i as int,
            ));
            assert(items.deep_view().take(i as int + 1).last() == items.deep_view()[i as int]);
        }
        if items[i] == *text {
            found = true;
            proof {
                assert(items.deep_view().take(i as int + 1)[i as int] == text@);
            }
        }
        proof {
            let pre = items.deep_view().take(i as int);
            let pre1 = items.deep_view().take(i as int + 1);
            if pre.contains(text@) {
                let j = choose|j: int| 0 <= j < pre.len() && pre[j] == text@;
                assert(pre1[j] == text@);
            }
            if pre1.contains(text@) && items.deep_view()[i as int] != text@ {
                let j = choose|j: int| 0 <= j < pre1.len() && pre1[j] == text@;
                assert(pre[j] == text@);
            }
        }
        i += 1;
    }
    proof {
        assert(items.deep_view().take(items@.len() as int) =~= items.deep_view());
    }
    found
}

/// An enumerated-string handler: accepts exactly the members of a fixed set
/// of texts.
pub struct EnumParameter {
    values: Vec<String>,
    value: String,
}

impl View for EnumParameter {
    type V = ChoiceView;

    closed spec fn view(&self) -> ChoiceView {
        ChoiceView { values: self.values.deep_view(), value: self.value@ }
    }
}

impl EnumParameter {
    /// A new enumerated handler with its allowed members and a starting text
    /// (which need not be a member). The members are a set: a repeated member
    /// is dropped, so each distinct one stands once, at its first position.
    pub fn new(values: Vec<String>, value: &str) -> (r: EnumParameter)
        ensures
            r@ == (ChoiceView { values: distinct_members(values.deep_view()), value: value@ }),
    {
        let mut members: Vec<String> = Vec::new();
        let mut i: usize = 0;
        proof {
            assert(members.deep_view() =~= distinct_members(values.deep_view().take(0)));
        }
        while i < values.len()
            invariant
                i <= values@.len(),
                members.deep_view() == distinct_members(values.deep_view().take(i as int)),
            decreases values@.len() - i,
        {
            proof {
                assert(values.deep_view()[i as int] == values@[i as int]@);
                assert(values.deep_view().take(i as int + 1).drop_last() =~= values.deep_view()
                    .take(i as int));
                assert(values.deep_view().take(i as int + 1).last() == values.deep_view()[
                    i as int
                ]);
            }
            if !contains_text(&members, &values[i]) {
                proof {
                    lemma_distinct_members_same_membership(
                        values.deep_view().take(i as int),
                        values@[i as int]@,
                    );
                }
                members.push(values[i].clone());
                proof {
                    assert(members.deep_view() =~= distinct_members(
                        values.deep_view().take(i as int),
                    ).push(values@[i as int]@));
                }
            } else {
                proof {
                    lemma_distinct_members_same_membership(
                        values.deep_view().take(i as int),
                        values@[i as int]@,
                    );
                }
            }
            i += 1;
        }
        proof {
            assert(values.deep_view().take(values@.len() as int) =~= values.deep_view());
        }
        EnumParameter { values: members, value: value.to_owned() }
    }

    /// The member the handler currently holds.
    pub fn get_value(&self) -> (r: String)
        ensures
            r@ == self@.value,
    {
        self.value.clone()
    }

    /// Commit `value` exactly when it matches an allowed member,
    /// case-sensitively; leave the current text unchanged otherwise.
    pub fn parse_value(&mut self, value: &str) -> (r: bool)
        ensures
            r == parse_ok_spec(HandlerView::Choice(old(self)@), value@),
            HandlerView::Choice(final(self)@) == parse_step_spec(
                HandlerView::Choice(old(self)@),
                value@,
            ),
    {
        let text = value.to_owned();
        let found = contains_text(&self.values, &text);
        if found {
            self.value = text;
        }
        found
    }

    /// Every enumerated handler consumes a following value token.
    pub fn requires_value(&self) -> (r: bool)
        ensures
            r,
    {
        true
    }

    /// Nothing to do: only a presence flag reacts to a bare occurrence.
    pub fn set_value(&mut self)
        ensures
            *final(self) == *old(self),
    {
    }

    /// The type label shown in the usage text: the allowed members joined by
    /// `|`, behind a space.
    pub fn value_type(&self) -> (r: String)
        ensures
            r@ == " "@ + pipe_join(self@.values),
    {
        let mut t: String = " ".to_owned();
        let mut i: usize = 0;
        while i < self.values.len()
            invariant
                i <= self.values@.len(),
                t@ == " "@ + pipe_join(self@.values.take(i as int)),
            decreases self.values@.len() - i,
        {
            proof {
                assert(self@.values.take(i as int + 1).drop_last() =~= self@.values.take(i as int));
                assert(self@.values.take(i as int + 1).last() == self.values@[i as int]@);
            }
            if i > 0 {
                t.append("|");
            }
            t.append(self.values[i].as_str());
            proof {
                if i == 0 {
                    assert(pipe_join(self@.values.take(1)) == self@.values[0]);
                    assert(t@ =~= " "@ + pipe_join(self@.values.take(1)));
                } else {
                    assert(pipe_join(self@.values.take(i as int + 1)) == pipe_join(
                        self@.values.take(i as int),
                    ) + "|"@ + self@.values[i as int]) by {
                        assert(seq!['|'] =~= "|"@) by {
                            reveal_strlit("|");
                        }
                    }
                    assert(t@ =~= " "@ + pipe_join(self@.values.take(i as int + 1)));
                }
            }
            i += 1;
        }
        proof {
            assert(self@.values.take(self.values@.len() as int) =~= self@.values);
        }
        t
    }
}

/// A presence flag: starts unset, set by a bare occurrence of its switch,
/// never fed a value token.
pub struct BoolParameter {
    value: bool,
}

impl View for BoolParameter {
    type V = FlagView;

    closed spec fn view(&self) -> FlagView {
        FlagView { value: self.value }
    }
}

impl BoolParameter {
    /// A new flag, unset.
    pub fn new() -> (r: BoolParameter)
        ensures
            r@ == (FlagView { value: false }),
    {
        BoolParameter { value: false }
    }

    /// Whether the flag has been set.
    pub fn get_value(&self) -> (r: bool)
        ensures
            r == self@.value,
    {
        self.value
    }

    /// A flag takes no value token: the text is refused and the flag is
    /// untouched. The scanner never routes a value here.
    pub fn parse_value(&mut self, value: &str) -> (r: bool)
        ensures
            r == parse_ok_spec(HandlerView::Flag(old(self)@), value@),
            HandlerView::Flag(final(self)@) == parse_step_spec(HandlerView::Flag(old(self)@), value@),
    {
        false
    }

    /// A flag consumes no following token.
    pub fn requires_value(&self) -> (r: bool)
        ensures
            !r,
    {
        false
    }

    /// Set the flag: a bare occurrence of its switch was scanned.
    pub fn set_value(&mut self)
        ensures
            final(self)@ == (FlagView { value: true }),
    {
        self.value = true;
    }

    /// A flag shows no type label in the usage text.
    pub fn value_type(&self) -> (r: String)
        ensures
            r@ == ""@,
    {
        "".to_owned()
    }
}

/// Any value handler, dispatched by kind.
pub enum ValueHandler {
    Int(IntParameter),
    Size(SizeParameter),
    Text(StringParameter),
    Choice(EnumParameter),
    Flag(BoolParameter),
}

impl View for ValueHandler {
    type V = HandlerView;

    open spec fn view(&self) -> HandlerView {
        match self {
            ValueHandler::Int(p) => HandlerView::Int(p@),
            ValueHandler::Size(p) => HandlerView::Size(p@),
            ValueHandler::Text(p) => HandlerView::Text(p@),
            ValueHandler::Choice(p) => HandlerView::Choice(p@),
            ValueHandler::Flag(p) => HandlerView::Flag(p@),
        }
    }
}

impl DeepView for ValueHandler {
    type V = HandlerView;

    open spec fn deep_view(&self) -> HandlerView {
        self.view()
    }
}

impl ValueHandler {
    /// Parse the text `value` into the handler and commit it when the
    /// handler's kind and validator accept it.
    pub fn parse_value(&mut self, value: &str) -> (r: bool)
        ensures
            r == parse_ok_spec(old(self)@, value@),
            final(self)@ == parse_step_spec(old(self)@, value@),
    {
        match self {
            ValueHandler::Int(p) => p.parse_value(value),
            ValueHandler::Size(p) => p.parse_value(value),
            ValueHandler::Text(p) => p.parse_value(value),
            ValueHandler::Choice(p) => p.parse_value(value),
            ValueHandler::Flag(p) => p.parse_value(value),
        }
    }

    /// Whether the handler consumes a following value token.
    pub fn requires_value(&self) -> (r: bool)
        ensures
            r == requires_value_spec(self@),
    {
        match self {
            ValueHandler::Int(p) => p.requires_value(),
            ValueHandler::Size(p) => p.requires_value(),
            ValueHandler::Text(p) => p.requires_value(),
            ValueHandler::Choice(p) => p.requires_value(),
            ValueHandler::Flag(p) => p.requires_value(),
        }
    }

    /// React to a bare occurrence of the handler's switch: a flag is set,
    /// every typed handler is untouched.
    pub fn set_value(&mut self)
        ensures
            final(self)@ == set_step_spec(old(self)@),
    {
        match self {
            ValueHandler::Int(p) => p.set_value(),
            ValueHandler::Size(p) => p.set_value(),
            ValueHandler::Text(p) => p.set_value(),
            ValueHandler::Choice(p) => p.set_value(),
            ValueHandler::Flag(p) => p.set_value(),
        }
    }

    /// The type label shown in the usage text.
    pub fn value_type(&self) -> (r: String)
        ensures
            r@ == value_type_spec(self@),
    {
        match self {
            ValueHandler::Int(p) => p.value_type(),
            ValueHandler::Size(p) => p.value_type(),
            ValueHandler::Text(p) => p.value_type(),
            ValueHandler::Choice(p) => p.value_type(),
            ValueHandler::Flag(p) => p.value_type(),
        }
    }
}

/// The type label of a handler, as the usage text shows it.
pub open spec fn value_type_spec(h: HandlerView) -> Seq<char> {
    match h {
        HandlerView::Int(_) => " int"@,
        HandlerView::Size(_) => " size"@,
        HandlerView::Text(_) => " string"@,
        HandlerView::Choice(cv) => " "@ + pipe_join(cv.values),
        HandlerView::Flag(_) => ""@,
    }
}

} // verus!
