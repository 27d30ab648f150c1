//! Console input: what a line that was read is worth, given the actions
//! that are allowed at that point.

use crate::domain::BankAction;
use crate::error::{BankError, BankErrorView, IoError};
use crate::numeral::numeral;
use crate::text::{
    is_blank, joined, lemma_trimmed_empty_iff_blank, lemma_trimmed_is_trim, trim, trimmed,
};
use vstd::prelude::*;
use vstd::string::StringExecFns;

verus! {

/// The rendered actions of `bounds`, with `separator` between neighbours.
pub open spec fn listing(bounds: Seq<BankAction>, separator: Seq<char>) -> Seq<char> {
    joined(bounds.map_values(|b: BankAction| b.render_spec()), separator)
}

/// A console read as mathematical values: the line, or the words of the
/// fault.
pub open spec fn read_view(read: Result<String, IoError>) -> Result<Seq<char>, Seq<char>> {
    match read {
        Ok(line) => Ok(line@),
        Err(fault) => Err(fault.msg@),
    }
}

/// An accepted or refused input as mathematical values.
pub open spec fn input_view(input: Result<String, BankError>) -> Result<Seq<char>, BankErrorView> {
    match input {
        Ok(text) => Ok(text@),
        Err(e) => Err(e@),
    }
}

/// Whether `bounds` leaves the input free: it names no action at all.
pub open spec fn unconstrained(bounds: Seq<BankAction>) -> bool {
    bounds.len() == 0
}

/// Whether `text` names one of the actions of `bounds`.
pub open spec fn within_bounds(bounds: Seq<BankAction>, text: Seq<char>) -> bool {
    exists|i: int| 0 <= i < bounds.len() && #[trigger] bounds[i].has_code_spec(text)
}

/// What a console read is worth. A fault of the console is passed on. A
/// line is trimmed; if nothing is left it is refused as empty, whatever
/// the bounds; where the bounds leave the input free anything else is
/// taken; otherwise it is taken if it names one of the bounds in upper or
/// lower case, and refused with all of them if it does not.
pub open spec fn accept_spec(read: Result<Seq<char>, Seq<char>>, bounds: Seq<BankAction>) -> Result<
    Seq<char>,
    BankErrorView,
> {
    match read {
        Err(msg) => Err(BankErrorView::IoRead { msg }),
        Ok(raw) => {
            let text = trimmed(raw);
            if text.len() == 0 {
                Err(BankErrorView::EmptyInput)
            } else if unconstrained(bounds) || within_bounds(bounds, text) {
                Ok(text)
            } else {
                Err(BankErrorView::OutOfBounds { allowed: bounds })
            }
        },
    }
}

/// A text that was taken reads as the line that was typed: it stands for
/// the same action, if for any, and for the same number, if for any.
pub proof fn lemma_taken_input_reads_as_typed(raw: Seq<char>, bounds: Seq<BankAction>)
    requires
        accept_spec(Ok(raw), bounds) is Ok,
    ensures
        ({
            let text = accept_spec(Ok(raw), bounds)->Ok_0;
            &&& text == trimmed(raw)
            &&& BankAction::parse_spec(text) == BankAction::parse_spec(raw)
            &&& numeral(text) == numeral(raw)
        }),
{
    lemma_trimmed_is_trim(raw);
}

/// The bounds and the parser go by one rule: a text that was taken
/// against actions to choose from parses to one of them.
pub proof fn lemma_taken_input_parses(raw: Seq<char>, bounds: Seq<BankAction>)
    requires
        !unconstrained(bounds),
        accept_spec(Ok(raw), bounds) is Ok,
    ensures
        ({
            let text = accept_spec(Ok(raw), bounds)->Ok_0;
            &&& BankAction::parse_spec(text) is Some
            &&& bounds.contains(BankAction::parse_spec(text)->0)
        }),
{
    let text = trimmed(raw);
    let i = choose|i: int| 0 <= i < bounds.len() && #[trigger] bounds[i].has_code_spec(text);
    assert(bounds[i] == BankAction::parse_spec(text)->0);
}

/// A blank line is refused as empty input, whatever actions are allowed.
pub proof fn lemma_blank_is_empty_input(raw: Seq<char>, bounds: Seq<BankAction>)
    requires
        is_blank(raw),
    ensures
        accept_spec(Ok(raw), bounds) == Err::<Seq<char>, BankErrorView>(BankErrorView::EmptyInput),
{
    lemma_trimmed_empty_iff_blank(raw);
}

/// With actions to choose from, a line that is not blank and names none
/// of them is refused as out of bounds, and the refusal lists exactly the
/// allowed actions, each once and in their order, in its value and in its
/// words.
pub proof fn lemma_out_of_bounds_lists_all(raw: Seq<char>, bounds: Seq<BankAction>)
    requires
        !unconstrained(bounds),
        !is_blank(raw),
        forall|i: int| 0 <= i < bounds.len() ==> !(#[trigger] bounds[i]).has_code_spec(trimmed(raw)),
    ensures
        accept_spec(Ok(raw), bounds) == Err::<Seq<char>, BankErrorView>(
            BankErrorView::OutOfBounds { allowed: bounds },
        ),
        (BankErrorView::OutOfBounds { allowed: bounds }).message()
            == "Not within bounds! They are:\n"@ + joined(
            Seq::new(bounds.len(), |i: int| bounds[i].render_spec()),
            seq!['\n'],
        ),
{
    lemma_trimmed_empty_iff_blank(raw);
    assert(bounds.map_values(|b: BankAction| b.render_spec()) =~= Seq::new(
        bounds.len(),
        |i: int| bounds[i].render_spec(),
    ));
}

/// Lists the actions of `bounds` in their order, each as it renders, with
/// `separator` between neighbours.
pub fn list_input_bounds(bounds: &Vec<BankAction>, separator: &str) -> (r: String)
    ensures
        r@ == listing(bounds@, separator@),
{
    let ghost parts = bounds@.map_values(|b: BankAction| b.render_spec());
    let mut out: String = String::new();
    let n: usize = bounds.len();
    let mut i: usize = 0;
    proof {
        assert(parts.take(0) =~= Seq::<Seq<char>>::empty());
    }
    while i < n
        invariant
            n == bounds.len(),
            i <= n,
            parts == bounds@.map_values(|b: BankAction| b.render_spec()),
            out@ == joined(parts.take(i as int), separator@),
        decreases n - i,
    {
        let ghost before = out@;
        if i > 0 {
            out.append(separator);
        }
        let item: String = bounds[i].render();
        out.append(item.as_str());
        proof {
            let now = parts.take(i + 1);
            assert(now.drop_last() =~= parts.take(i as int));
            assert(now.last() == bounds[i as int].render_spec());
            if i == 0 {
                assert(before =~= Seq::<char>::empty());
                assert(out@ =~= item@);
            }
        }
        i += 1;
    }
    proof {
        assert(parts.take(n as int) =~= parts);
    }
    out
}

/// Whether `text` names one of the actions of `bounds`.
fn names_one_of(bounds: &Vec<BankAction>, text: &str) -> (r: bool)
    ensures
        r == within_bounds(bounds@, text@),
{
    let n: usize = bounds.len();
    let mut i: usize = 0;
    while i < n
        invariant
            n == bounds.len(),
            i <= n,
            forall|j: int| 0 <= j < i ==> !(#[trigger] bounds[j]).has_code_spec(text@),
        decreases n - i,
    {
        if bounds[i].has_code(text) {
            return true;
        }
        i += 1;
    }
    false
}

/// A copy of `bounds`.
fn copy_bounds(bounds: &Vec<BankAction>) -> (r: Vec<BankAction>)
    ensures
        r@ == bounds@,
{
    let n: usize = bounds.len();
    let mut r: Vec<BankAction> = Vec::new();
    let mut i: usize = 0;
    while i < n
        invariant
            n == bounds.len(),
            i <= n,
            r@ == bounds@.take(i as int),
        decreases n - i,
    {
        r.push(bounds[i]);
        assert(r@ =~= bounds@.take(i + 1));
        i += 1;
    }
    assert(bounds@.take(n as int) =~= bounds@);
    r
}

/// Decides what a console read is worth, given the actions allowed at
/// this point; no actions means that any text will do.
pub fn accept_input(read: Result<String, IoError>, bounds: &Vec<BankAction>) -> (r: Result<
    String,
    BankError,
>)
    ensures
        input_view(r) == accept_spec(read_view(read), bounds@),
{
    match read {
        Err(source) => Err(BankError::IoRead { source }),
        Ok(line) => {
            let text: String = trim(line.as_str());
            if text.as_str().is_empty() {
                Err(BankError::EmptyInput)
            } else if bounds.len() == 0 || names_one_of(bounds, text.as_str()) {
                Ok(text)
            } else {
                Err(BankError::OutOfBounds { allowed: copy_bounds(bounds) })
            }
        },
    }
}

} // verus!
