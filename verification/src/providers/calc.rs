//! The calculator's decisions: which queries are worth evaluating, what of an
//! evaluation is worth showing, and what activation copies. The evaluation
//! itself runs in fend under a wall-clock budget, around the library.

use crate::search::{Action, Activation, Item, ItemView, Query};
use crate::search::rank::item_views;
use crate::text::{ascii_lower_seq, byte_len, byte_len_exceeds, chars_of, concat, copy_str, has_infix, is_digit, lowercase_ascii, seq_contains, trim, trim_str};
use vstd::prelude::*;

verus! {

pub const PROVIDER: &'static str = "calc";

/// Calculator results always sit above app matches: if the input parses as
/// maths, that is almost certainly what was meant.
pub const CALC_SCORE: i64 = 1_000_000;

/// Characters that only occur in a query as arithmetic.
pub open spec fn is_operator(c: char) -> bool {
    c == '+' || c == '*' || c == '/' || c == '^' || c == '%' || c == '(' || c == ')' || c == '='
}

/// The cheap pre-filter in front of the evaluator. Without it every app
/// search would also be fed to fend, which resolves bare words like `pi` or
/// `c` into numbers. A bare `-` is common in app names ("gnome-terminal"), so
/// subtraction needs spaces around it.
pub open spec fn looks_like_maths_spec(q: Seq<char>) -> bool {
    &&& byte_len(q) >= 3
    &&& exists|i: int| 0 <= i < q.len() && is_digit(#[trigger] q[i])
    &&& {
        ||| exists|i: int| 0 <= i < q.len() && is_operator(#[trigger] q[i])
        ||| has_infix(q, " - "@)
        ||| has_infix(ascii_lower_seq(q), " to "@)
        ||| has_infix(ascii_lower_seq(q), " in "@)
        ||| has_infix(ascii_lower_seq(q), " as "@)
    }
}

/// A query of at least three bytes holding a digit and any of
/// `+ * / ^ % ( ) =` is taken for maths and handed to the evaluator.
pub proof fn lemma_operators_make_maths(q: Seq<char>, i: int, j: int)
    requires
        byte_len(q) >= 3,
        0 <= i < q.len(),
        '0' <= q[i] <= '9',
        0 <= j < q.len(),
        q[j] == '+' || q[j] == '*' || q[j] == '/' || q[j] == '^' || q[j] == '%' || q[j] == '(' || q[j] == ')'
            || q[j] == '=',
    ensures
        looks_like_maths_spec(q),
{
    assert(is_digit(q[i]));
    assert(is_operator(q[j]));
}

fn any_char(v: &Vec<char>, digits: bool) -> (r: bool)
    ensures
        digits ==> (r == exists|i: int| 0 <= i < v@.len() && is_digit(#[trigger] v@[i])),
        !digits ==> (r == exists|i: int| 0 <= i < v@.len() && is_operator(#[trigger] v@[i])),
{
    let mut i: usize = 0;
    while i < v.len()
        invariant
            i <= v.len(),
            digits ==> forall|k: int| 0 <= k < i ==> !is_digit(#[trigger] v@[k]),
            !digits ==> forall|k: int| 0 <= k < i ==> !is_operator(#[trigger] v@[k]),
        decreases v.len() - i,
    {
        let c = v[i];
        let hit = if digits {
            '0' <= c && c <= '9'
        } else {
            c == '+' || c == '*' || c == '/' || c == '^' || c == '%' || c == '(' || c == ')' || c == '='
        };
        if hit {
            assert(digits ==> is_digit(v@[i as int]));
            assert(!digits ==> is_operator(v@[i as int]));
            return true;
        }
        i += 1;
    }
    false
}

pub fn looks_like_maths(q: &str) -> (b: bool)
    ensures
        b == looks_like_maths_spec(q@),
{
    let v = chars_of(q);
    if !byte_len_exceeds(&v, 2) {
        return false;
    }
    if !any_char(&v, true) {
        return false;
    }
    if any_char(&v, false) {
        return true;
    }
    if seq_contains(&v, &chars_of(" - ")) {
        return true;
    }
    let lower = lowercase_ascii(&v);
    seq_contains(&lower, &chars_of(" to ")) || seq_contains(&lower, &chars_of(" in ")) || seq_contains(
        &lower,
        &chars_of(" as "),
    )
}

/// What of the evaluator's main result is shown: the result trimmed, unless
/// that is empty or merely echoes the input, which fend does with input it
/// does not understand.
pub open spec fn shown_result(input: Seq<char>, main: Seq<char>) -> Option<Seq<char>> {
    let m = trim(main);
    if m.len() == 0 || m == trim(input) {
        None
    } else {
        Some(m)
    }
}

pub open spec fn shown_evaluation(input: Seq<char>, main: Option<Seq<char>>) -> Option<Seq<char>> {
    match main {
        Some(m) => shown_result(input, m),
        None => None,
    }
}

/// The answer to `input` as the `omarchycastd eval` subcommand prints it,
/// given the evaluator's main result for it (`None` when it failed or ran
/// out of time).
pub fn eval_once(input: &str, main: Option<String>) -> (r: Option<String>)
    ensures
        crate::text::opt_view(r) == shown_evaluation(input@, crate::text::opt_view(main)),
{
    let main = match main {
        Some(m) => m,
        None => return None,
    };
    let m = trim_str(main.as_str());
    let t = trim_str(input);
    if m.as_str().is_empty() || crate::text::str_eq(m.as_str(), t.as_str()) {
        None
    } else {
        Some(m)
    }
}

/// The row shown for a result of the query `q`.
pub open spec fn calc_row(q: Seq<char>, result: Seq<char>) -> ItemView {
    ItemView {
        id: PROVIDER@ + ":"@ + "result"@,
        provider: PROVIDER@,
        kind: "Calculator"@,
        title: result,
        subtitle: Some(q),
        icon: None,
        glyph: Some("="@),
        accessory: Some("\u{21b5} copy"@),
        score: CALC_SCORE as i64,
    }
}

/// What the calculator shows for `q`, given what the evaluator made of it.
pub open spec fn calc_result(q: Seq<char>, main: Option<Seq<char>>) -> Option<Seq<char>> {
    if looks_like_maths_spec(q) {
        shown_evaluation(q, main)
    } else {
        None
    }
}

pub open spec fn calc_rows(q: Seq<char>, main: Option<Seq<char>>) -> Seq<ItemView> {
    match calc_result(q, main) {
        Some(r) => seq![calc_row(q, r)],
        None => Seq::empty(),
    }
}

/// What activation copies: the result, or with the alternate action the
/// whole working, "expression = result".
pub open spec fn copied_text(expression: Seq<char>, result: Seq<char>, action: Action) -> Seq<char> {
    match action {
        Action::Primary => result,
        Action::Secondary => expression + " = "@ + result,
    }
}

pub struct CalcProvider {
    /// The last calculation shown, so activation does not run it again.
    last: Option<(String, String)>,
}

impl CalcProvider {
    /// The expression and result of the last calculation shown, if any.
    pub closed spec fn last_calculation(&self) -> Option<(Seq<char>, Seq<char>)> {
        match self.last {
            Some((e, r)) => Some((e@, r@)),
            None => None,
        }
    }

    pub fn new() -> (r: Self)
        ensures
            r.last_calculation() is None,
    {
        CalcProvider { last: None }
    }

    /// Whether `q` is worth handing to the evaluator at all.
    pub fn wants(&self, q: &Query) -> (b: bool)
        ensures
            b == looks_like_maths_spec(q.trimmed@),
    {
        looks_like_maths(q.trimmed.as_str())
    }

    /// The rows for `q`, given the evaluator's main result for it (`None` when
    /// it was not asked, failed or ran out of time). A shown result becomes
    /// the calculation that activation copies.
    pub fn answer_query(&mut self, q: &Query, main: Option<String>) -> (items: Vec<Item>)
        ensures
            item_views(items@) == calc_rows(q.trimmed@, crate::text::opt_view(main)),
            final(self).last_calculation() == (match calc_result(q.trimmed@, crate::text::opt_view(main)) {
                Some(r) => Some((q.trimmed@, r)),
                None => old(self).last_calculation(),
            }),
    {
        if !looks_like_maths(q.trimmed.as_str()) {
            let none: Vec<Item> = Vec::new();
            assert(item_views(none@) =~= Seq::<ItemView>::empty());
            return none;
        }
        let result = match eval_once(q.trimmed.as_str(), main) {
            Some(r) => r,
            None => {
                let none: Vec<Item> = Vec::new();
                assert(item_views(none@) =~= Seq::<ItemView>::empty());
                return none;
            },
        };
        self.last = Some((q.trimmed.clone(), result.clone()));
        let mut item = Item::new(PROVIDER, "Calculator", copy_str("result"), result);
        item.subtitle = Some(q.trimmed.clone());
        item.glyph = Some(copy_str("="));
        item.accessory = Some(copy_str("\u{21b5} copy"));
        item.score = CALC_SCORE;
        let mut items: Vec<Item> = Vec::new();
        items.push(item);
        assert(item_views(items@) =~= seq![items@[0]@]);
        items
    }

    /// Copies the last calculation shown.
    pub fn activate(&self, _id: &str, action: Action) -> (r: Result<Activation, String>)
        ensures
            match self.last_calculation() {
                Some((e, v)) => r matches Ok(Activation::Copy { text }) && text@ == copied_text(e, v, action),
                None => r matches Err(m) && m@ == "no calculation to copy"@,
            },
    {
        match &self.last {
            Some((expression, result)) => {
                let text = match action {
                    Action::Primary => result.clone(),
                    Action::Secondary => {
                        let head = concat(expression.as_str(), " = ");
                        concat(head.as_str(), result.as_str())
                    },
                };
                Ok(Activation::Copy { text })
            },
            None => Err(copy_str("no calculation to copy")),
        }
    }
}

} // verus!
