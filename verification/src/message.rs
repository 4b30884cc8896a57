//! Texts for people to read.

use vstd::prelude::*;

use crate::storage::Rid;

verus! {

/// The character for a decimal digit.
pub open spec fn digit(value: int) -> char {
    (48 + value) as char
}

/// A number in decimal notation.
pub open spec fn decimal(value: int) -> Seq<char>
    decreases value,
{
    if value < 10 {
        seq![digit(value)]
    } else {
        decimal(value / 10).push(digit(value % 10))
    }
}

/// A row identifier in the form in which Rust prints structures.
pub open spec fn rid_text(rid: Rid) -> Seq<char> {
    "Rid { page_id: PageId("@ + decimal(rid.page_id.0 as int) + "), slot_id: SlotId("@ + decimal(
        rid.slot_id.0 as int,
    ) + "), generation: "@ + decimal(rid.generation as int) + " }"@
}

/// How Rust prints a string for debugging: in quotes, with escapes.
pub uninterp spec fn quoted(text: Seq<char>) -> Seq<char>;

/// Formats a string with its `std::fmt::Debug` implementation, which puts it in
/// quotes and escapes what cannot be printed.
#[verifier::external_body]
fn quote(text: &str) -> (result: String)
    ensures
        result@ == quoted(text@),
{
    format!("{text:?}")
}

/// A text that is being put together.
pub struct Message {
    text: String,
}

impl View for Message {
    type V = Seq<char>;

    closed spec fn view(&self) -> Seq<char> {
        self.text@
    }
}

impl Message {
    pub fn new(text: &str) -> (message: Self)
        ensures
            message@ == text@,
    {
        Self { text: text.to_owned() }
    }

    /// Goes on with a text.
    pub fn text(self, text: &str) -> (message: Self)
        ensures
            message@ == self@ + text@,
    {
        Self { text: self.text.concat(text) }
    }

    /// Goes on with a number.
    pub fn number(self, value: u64) -> (message: Self)
        ensures
            message@ == self@ + decimal(value as int),
        decreases value,
    {
        let last = digit_text(value % 10);
        if value < 10 {
            self.text(last)
        } else {
            let message = self.number(value / 10).text(last);
            assert(message@ =~= self@ + decimal(value as int));
            message
        }
    }

    /// Goes on with a row identifier.
    pub fn rid(self, rid: Rid) -> (message: Self)
        ensures
            message@ == self@ + rid_text(rid),
    {
        let message = self.text("Rid { page_id: PageId(").number(rid.page_id().get() as u64).text(
            "), slot_id: SlotId(",
        ).number(rid.slot_id().get() as u64).text("), generation: ").number(
            rid.generation() as u64,
        ).text(" }");
        assert(message@ =~= self@ + rid_text(rid));
        message
    }

    /// Goes on with a text in quotes.
    pub fn quoted(self, text: &str) -> (message: Self)
        ensures
            message@ == self@ + quoted(text@),
    {
        let result = quote(text);
        self.text(result.as_str())
    }

    pub fn finish(self) -> (text: String)
        ensures
            text@ == self@,
    {
        self.text
    }
}

fn digit_text(value: u64) -> (text: &'static str)
    requires
        value < 10,
    ensures
        text@ == seq![digit(value as int)],
{
    proof {
        reveal_strlit("0");
        reveal_strlit("1");
        reveal_strlit("2");
        reveal_strlit("3");
        reveal_strlit("4");
        reveal_strlit("5");
        reveal_strlit("6");
        reveal_strlit("7");
        reveal_strlit("8");
        reveal_strlit("9");
    }
    let text = match value {
        0 => "0",
        1 => "1",
        2 => "2",
        3 => "3",
        4 => "4",
        5 => "5",
        6 => "6",
        7 => "7",
        8 => "8",
        _ => "9",
    };
    assert(text@ =~= seq![digit(value as int)]);
    text
}

/// The number that decimal digits stand for.
pub open spec fn number_of(digits: Seq<char>) -> int
    decreases digits.len(),
{
    if digits.len() == 0 {
        0
    } else {
        10 * number_of(digits.drop_last()) + (digits.last() as int - '0' as int)
    }
}

/// A number is written in decimal digits that stand for it, without a zero in front
/// but for the number zero itself.
pub proof fn decimals_stand_for_their_numbers(value: int)
    requires
        0 <= value,
    ensures
        decimal(value).len() > 0,
        number_of(decimal(value)) == value,
        forall|i: int|
            0 <= i < decimal(value).len() ==> '0' as int <= #[trigger] decimal(value)[i] as int
                <= '9' as int,
        value > 0 ==> decimal(value)[0] != '0',
    decreases value,
{
    let digits = decimal(value);
    if value < 10 {
        assert(digits.drop_last() =~= Seq::empty());
        assert(number_of(digits.drop_last()) == 0);
    } else {
        decimals_stand_for_their_numbers(value / 10);
        assert(digits.drop_last() =~= decimal(value / 10));
    }
}

/// Whether these are decimal digits that stand for the number, without a zero in front
/// but for the number zero itself.
pub open spec fn stands_for(digits: Seq<char>, value: int) -> bool {
    &&& digits.len() > 0
    &&& number_of(digits) == value
    &&& forall|i: int|
        0 <= i < digits.len() ==> '0' as int <= #[trigger] digits[i] as int <= '9' as int
    &&& value > 0 ==> digits[0] != '0'
}

/// Whether a text is a number between two texts.
pub open spec fn says(text: Seq<char>, before: Seq<char>, value: int, after: Seq<char>) -> bool {
    exists|digits: Seq<char>| #[trigger]
        stands_for(digits, value) && text == before + digits + after
}

/// Whether a text is two numbers between three texts.
pub open spec fn says_both(
    text: Seq<char>,
    before: Seq<char>,
    first: int,
    between: Seq<char>,
    second: int,
    after: Seq<char>,
) -> bool {
    exists|one: Seq<char>, other: Seq<char>|
        #[trigger] stands_for(one, first) && #[trigger] stands_for(other, second) && text == before
            + one + between + other + after
}

/// A number between two texts is said.
pub proof fn lemma_says(text: Seq<char>, before: Seq<char>, value: int, after: Seq<char>)
    requires
        0 <= value,
        text =~= before + decimal(value) + after,
    ensures
        says(text, before, value, after),
{
    decimals_stand_for_their_numbers(value);
    assert(stands_for(decimal(value), value));
}

/// Two numbers between three texts are said.
pub proof fn lemma_says_both(
    text: Seq<char>,
    before: Seq<char>,
    first: int,
    between: Seq<char>,
    second: int,
    after: Seq<char>,
)
    requires
        0 <= first,
        0 <= second,
        text =~= before + decimal(first) + between + decimal(second) + after,
    ensures
        says_both(text, before, first, between, second, after),
{
    decimals_stand_for_their_numbers(first);
    decimals_stand_for_their_numbers(second);
    assert(stands_for(decimal(first), first));
    assert(stands_for(decimal(second), second));
}

/// A row identifier is printed with its three numbers, in the order of its fields.
pub proof fn rids_are_printed_with_their_fields(rid: Rid)
    ensures
        exists|page: Seq<char>, slot: Seq<char>, generation: Seq<char>|
            #[trigger] stands_for(page, rid.page_id.0 as int) && #[trigger] stands_for(
                slot,
                rid.slot_id.0 as int,
            ) && #[trigger] stands_for(generation, rid.generation as int) && rid_text(rid)
                == "Rid { page_id: PageId("@ + page + "), slot_id: SlotId("@ + slot
                + "), generation: "@ + generation + " }"@,
{
    decimals_stand_for_their_numbers(rid.page_id.0 as int);
    decimals_stand_for_their_numbers(rid.slot_id.0 as int);
    decimals_stand_for_their_numbers(rid.generation as int);
    assert(stands_for(decimal(rid.page_id.0 as int), rid.page_id.0 as int));
    assert(stands_for(decimal(rid.slot_id.0 as int), rid.slot_id.0 as int));
    assert(stands_for(decimal(rid.generation as int), rid.generation as int));
}

} // verus!
