//! The calculator: a query that is an arithmetic expression, and its value
//! as text.

use crate::text::{
    chars_of, contains, decimal, is_scattered_in, is_whitespace, lemma_chars_deep_view,
    occurs_in, render_integer, same_chars, scattered_in, split_words, string_from,
    trim_trailing, whitespace, without_trailing, words,
};
use vstd::prelude::*;
use vstd::string::*;

verus! {

/// The most tokens of an expression that is handed to the evaluator. The
/// evaluator recurses as deep as the expression's tree of operators, which
/// is never deeper than the expression has tokens.
pub const MAX_TOKENS: usize = 1024;

/// The number of digits behind the decimal point in the fixed rendering of a
/// floating-point number.
pub const FRACTION_DIGITS: usize = 10;

/// The most digits behind the decimal point that a rendering may be asked
/// for.
pub const MAX_FRACTION_DIGITS: usize = 100;

/// The value of an expression, in plain values. A floating-point number is
/// held as the three renderings that formatting reads.
#[derive(Debug, PartialEq, Eq)]
pub enum Evaluated {
    Integer(i64),
    Float {
        /// The shortest decimal text that reads back as the number.
        shortest: String,
        /// The number with a fixed count of digits behind the decimal point.
        fixed: String,
        /// The number cut to an integer, at the bounds of `i64` where it lies
        /// outside them.
        truncated: i64,
    },
    /// Any other value, as the evaluator prints it.
    Other(String),
}

/// What an `Evaluated` holds, as mathematical values.
pub enum EvaluatedView {
    Integer(i64),
    Float { shortest: Seq<char>, fixed: Seq<char>, truncated: i64 },
    Other(Seq<char>),
}

impl View for Evaluated {
    type V = EvaluatedView;

    open spec fn view(&self) -> EvaluatedView {
        match self {
            Evaluated::Integer(value) => EvaluatedView::Integer(*value),
            Evaluated::Float { shortest, fixed, truncated } => EvaluatedView::Float {
                shortest: shortest@,
                fixed: fixed@,
                truncated: *truncated,
            },
            Evaluated::Other(text) => EvaluatedView::Other(text@),
        }
    }
}

impl DeepView for Evaluated {
    type V = EvaluatedView;

    open spec fn deep_view(&self) -> EvaluatedView {
        self@
    }
}

/// What the evaluator makes of an expression: its value, with a
/// floating-point number rendered to `precision` digits behind the decimal
/// point, or `None` where the expression does not evaluate.
pub uninterp spec fn evaluated(expression: Seq<char>, precision: usize) -> Option<EvaluatedView>;

/// Whether `c` is one of the characters that mark arithmetic.
pub open spec fn is_operator(c: char) -> bool {
    c == '+' || c == '-' || c == '*' || c == '/' || c == '(' || c == ')' || c == '^' || c == '%'
}

/// Whether a text holds an operator character.
pub open spec fn has_operator(text: Seq<char>) -> bool {
    exists|i: int| 0 <= i < text.len() && is_operator(#[trigger] text[i])
}

/// Whether the evaluator reads `c` as a token or as part of one, apart from
/// names, numbers and texts in quotes.
pub open spec fn is_symbol(c: char) -> bool {
    ||| c == '+'
    ||| c == '-'
    ||| c == '*'
    ||| c == '/'
    ||| c == '%'
    ||| c == '^'
    ||| c == '('
    ||| c == ')'
    ||| c == ','
    ||| c == ';'
    ||| c == '='
    ||| c == '!'
    ||| c == '>'
    ||| c == '<'
    ||| c == '&'
    ||| c == '|'
}

/// Whether `c` ends a name: a symbol, a quote or whitespace.
pub open spec fn ends_name(c: char) -> bool {
    is_symbol(c) || c == '"' || is_whitespace(c)
}

/// The expression with a space in place of each character that ends a name.
pub open spec fn spaced(expression: Seq<char>) -> Seq<char> {
    Seq::new(
        expression.len(),
        |i: int|
            if ends_name(expression[i]) {
                ' '
            } else {
                expression[i]
            },
    )
}

/// The names and numbers of an expression, where it holds no comment: its
/// longest runs of characters that end no name. What stands in quotes is
/// read as names too.
pub open spec fn names(expression: Seq<char>) -> Seq<Seq<char>> {
    words(spaced(expression))
}

/// The number of symbols and quotes in a text.
pub open spec fn marks(text: Seq<char>) -> nat
    decreases text.len(),
{
    if text.len() == 0 {
        0
    } else {
        marks(text.drop_last()) + if is_symbol(text.last()) || text.last() == '"' {
            1nat
        } else {
            0nat
        }
    }
}

/// A number that the tokens of an expression do not exceed: its symbols and
/// quotes, and its names.
pub open spec fn token_bound(expression: Seq<char>) -> nat {
    marks(expression) + names(expression).len()
}

/// Whether a name is that of a function of the evaluator that can abort on
/// some argument.
pub open spec fn is_hazardous(name: Seq<char>) -> bool {
    ||| name == "math::abs"@
    ||| name == "shl"@
    ||| name == "shr"@
    ||| name == "str::substring"@
}

/// Whether a text holds the beginning of a comment of the evaluator. A
/// comment is left out, and the names around it are read as one.
pub open spec fn has_comment(expression: Seq<char>) -> bool {
    occurs_in("//"@, expression) || occurs_in("/*"@, expression)
}

/// Whether the characters of the name of a function that can abort stand in
/// a text in their order.
pub open spec fn holds_hazard_scattered(expression: Seq<char>) -> bool {
    ||| is_scattered_in("math::abs"@, expression)
    ||| is_scattered_in("shl"@, expression)
    ||| is_scattered_in("shr"@, expression)
    ||| is_scattered_in("str::substring"@, expression)
}

/// Whether an expression may name a function that can abort. Without
/// comments its names are read off as they stand; with comments, a name may
/// be joined of parts that stand apart.
pub open spec fn may_abort(expression: Seq<char>) -> bool {
    if has_comment(expression) {
        holds_hazard_scattered(expression)
    } else {
        exists|i: int|
            0 <= i < names(expression).len() && is_hazardous(#[trigger] names(expression)[i])
    }
}

/// Whether an expression may be handed to the evaluator: it has few enough
/// tokens, and it names no function that can abort.
pub open spec fn is_evaluable(expression: Seq<char>) -> bool {
    token_bound(expression) <= MAX_TOKENS && !may_abort(expression)
}

/// Whether the shortest text of a floating-point number shows a finite number
/// without a fractional part.
pub open spec fn is_whole(shortest: Seq<char>) -> bool {
    &&& shortest.len() > 0
    &&& '0' <= shortest.last() <= '9'
    &&& forall|i: int| 0 <= i < shortest.len() ==> #[trigger] shortest[i] != '.'
}

/// A fixed-precision text without its trailing zeros and without the decimal
/// point that they may leave at the end.
pub open spec fn without_padding(fixed: Seq<char>) -> Seq<char> {
    let stripped = without_trailing(fixed, '0');
    if stripped.len() > 0 && stripped.last() == '.' {
        stripped.drop_last()
    } else {
        stripped
    }
}

/// How a value is shown: an integer directly, a floating-point number
/// without a fractional part as a bare integer, any other floating-point
/// number in fixed precision without padding.
pub open spec fn formatted(value: EvaluatedView) -> Seq<char> {
    match value {
        EvaluatedView::Integer(number) => decimal(number as int),
        EvaluatedView::Float { shortest, fixed, truncated } => if is_whole(shortest) {
            decimal(truncated as int)
        } else {
            without_padding(fixed)
        },
        EvaluatedView::Other(text) => text,
    }
}

/// What a scan for whole numbers knows at some place of an expression.
pub struct WholeScan {
    /// The expression so far, with `.0` behind each whole number that has
    /// ended.
    pub text: Seq<char>,
    /// Whether the place lies inside a text in quotes.
    pub in_quotes: bool,
    /// Whether the place lies behind a backslash inside a text in quotes.
    pub escaped: bool,
    /// Whether the place lies behind a character of a name or number.
    pub in_name: bool,
    /// Whether the name or number at the place is made of digits only.
    pub all_digits: bool,
}

/// The scan at the end of `expression`. What stands in quotes is copied as
/// it is; a name or number ends at a character that ends a name.
pub open spec fn whole_scan(expression: Seq<char>) -> WholeScan
    decreases expression.len(),
{
    if expression.len() == 0 {
        WholeScan {
            text: Seq::empty(),
            in_quotes: false,
            escaped: false,
            in_name: false,
            all_digits: false,
        }
    } else {
        let before = whole_scan(expression.drop_last());
        let c = expression.last();
        if before.in_quotes {
            WholeScan {
                text: before.text.push(c),
                in_quotes: before.escaped || c != '"',
                escaped: !before.escaped && c == '\\',
                in_name: false,
                all_digits: false,
            }
        } else if ends_name(c) {
            WholeScan {
                text: closed(before).push(c),
                in_quotes: c == '"',
                escaped: false,
                in_name: false,
                all_digits: false,
            }
        } else {
            WholeScan {
                text: before.text.push(c),
                in_quotes: false,
                escaped: false,
                in_name: true,
                all_digits: (!before.in_name || before.all_digits) && '0' <= c <= '9',
            }
        }
    }
}

/// The text of a scan, with `.0` behind the whole number that ends at its
/// place, if one does.
pub open spec fn closed(scan: WholeScan) -> Seq<char> {
    if scan.in_name && scan.all_digits {
        scan.text + seq!['.', '0']
    } else {
        scan.text
    }
}

/// The expression with each whole number read as a floating-point number:
/// with `.0` behind each run of digits that is a number of its own, outside
/// quotes.
pub open spec fn promoted(expression: Seq<char>) -> Seq<char> {
    closed(whole_scan(expression))
}

/// Whether a text holds a division sign.
pub open spec fn has_division(text: Seq<char>) -> bool {
    exists|i: int| 0 <= i < text.len() && #[trigger] text[i] == '/'
}

/// Whether the quotients of an expression are to be taken anew, exactly:
/// its value is an integer, it holds a division sign, and it can be
/// evaluated with its whole numbers read as floating-point numbers.
pub open spec fn wants_exact_quotients(expression: Seq<char>, value: EvaluatedView) -> bool {
    &&& value is Integer
    &&& has_division(expression)
    &&& is_evaluable(promoted(expression))
}

/// The value that is shown: the exact one, where quotients are to be taken
/// anew and that gives a floating-point number, else the value itself.
pub open spec fn refined(
    expression: Seq<char>,
    value: EvaluatedView,
    exact: Option<EvaluatedView>,
) -> EvaluatedView {
    if wants_exact_quotients(expression, value) && exact is Some && exact->0 is Float {
        exact->0
    } else {
        value
    }
}

/// What the calculator makes of a query: what the evaluator makes of it and
/// of its form with whole numbers read as floating-point numbers, with the
/// calculator's count of digits.
pub open spec fn calculation(query: Seq<char>) -> Option<Seq<char>> {
    calculated(
        query,
        evaluated(query, FRACTION_DIGITS),
        evaluated(promoted(query), FRACTION_DIGITS),
    )
}

/// The calculator's answer to a query, given what the evaluator makes of it
/// and of its form with whole numbers read as floating-point numbers. Only a
/// text with an operator character that may be evaluated is an expression. A
/// quotient of whole numbers keeps its fraction: where the value is an
/// integer and the expression divides, the exact value is shown.
pub open spec fn calculated(
    expression: Seq<char>,
    value: Option<EvaluatedView>,
    exact: Option<EvaluatedView>,
) -> Option<Seq<char>> {
    if has_operator(expression) && is_evaluable(expression) {
        match value {
            Some(number) => Some(formatted(refined(expression, number, exact))),
            None => None,
        }
    } else {
        None
    }
}

/// Calls `evalexpr::eval`, which evaluates an expression in a fresh context
/// and so depends on the expression alone: the contract names the result
/// `evaluated`. An integer is handed over as it is, a floating-point number
/// as its rendering by `{}`, its rendering with `precision` digits behind
/// the decimal point and its cast to `i64`, any other value as the evaluator
/// prints it; an error becomes `None`.
#[verifier::external_body]
fn evaluate(expression: &str, precision: usize) -> (value: Option<Evaluated>)
    requires
        is_evaluable(expression@),
        precision <= MAX_FRACTION_DIGITS,
    ensures
        value.deep_view() == evaluated(expression@, precision),
{
    match evalexpr::eval(expression) {
        Ok(evalexpr::Value::Int(number)) => Some(Evaluated::Integer(number)),
        Ok(evalexpr::Value::Float(number)) => Some(
            Evaluated::Float {
                shortest: format!("{}", number),
                fixed: format!("{:.*}", precision, number),
                truncated: number as i64,
            },
        ),
        Ok(other) => Some(Evaluated::Other(format!("{}", other))),
        Err(_) => None,
    }
}

fn operator(c: char) -> (r: bool)
    ensures
        r == is_operator(c),
{
    c == '+' || c == '-' || c == '*' || c == '/' || c == '(' || c == ')' || c == '^' || c == '%'
}

fn holds_operator(chars: &Vec<char>) -> (r: bool)
    ensures
        r == has_operator(chars@),
{
    let mut i: usize = 0;
    while i < chars.len()
        invariant
            i <= chars.len(),
            forall|j: int| 0 <= j < i ==> !is_operator(#[trigger] chars@[j]),
        decreases chars.len() - i,
    {
        if operator(chars[i]) {
            return true;
        }
        i += 1;
    }
    false
}

fn symbol(c: char) -> (r: bool)
    ensures
        r == is_symbol(c),
{
    c == '+' || c == '-' || c == '*' || c == '/' || c == '%' || c == '^' || c == '(' || c == ')'
        || c == ',' || c == ';' || c == '=' || c == '!' || c == '>' || c == '<' || c == '&' || c
        == '|'
}

fn hazardous(name: &Vec<char>) -> (r: bool)
    ensures
        r == is_hazardous(name@),
{
    same_chars(name, &chars_of("math::abs")) || same_chars(name, &chars_of("shl")) || same_chars(
        name,
        &chars_of("shr"),
    ) || same_chars(name, &chars_of("str::substring"))
}

fn evaluable(chars: &Vec<char>) -> (r: bool)
    ensures
        r == is_evaluable(chars@),
{
    let mut plain: Vec<char> = Vec::new();
    let mut count: usize = 0;
    let mut i: usize = 0;
    assert(chars@.take(0) =~= Seq::<char>::empty());
    while i < chars.len()
        invariant
            i <= chars.len(),
            plain@ == spaced(chars@).take(i as int),
            count == marks(chars@.take(i as int)),
            count <= i,
        decreases chars.len() - i,
    {
        assert(chars@.take(i + 1).drop_last() =~= chars@.take(i as int));
        let c = chars[i];
        let mark = symbol(c) || c == '"';
        if mark {
            count += 1;
        }
        if mark || whitespace(c) {
            plain.push(' ');
        } else {
            plain.push(c);
        }
        assert(plain@ =~= spaced(chars@).take(i + 1));
        i += 1;
    }
    proof {
        assert(chars@.take(chars.len() as int) =~= chars@);
        assert(spaced(chars@).take(chars.len() as int) =~= spaced(chars@));
    }
    let found = split_words(&plain);
    if count > MAX_TOKENS || found.len() > MAX_TOKENS - count {
        return false;
    }
    if contains(chars, &chars_of("//")) || contains(chars, &chars_of("/*")) {
        return !(scattered_in(&chars_of("math::abs"), chars) || scattered_in(
            &chars_of("shl"),
            chars,
        ) || scattered_in(&chars_of("shr"), chars) || scattered_in(
            &chars_of("str::substring"),
            chars,
        ));
    }
    let mut k: usize = 0;
    while k < found.len()
        invariant
            k <= found.len(),
            !has_comment(chars@),
            token_bound(chars@) <= MAX_TOKENS,
            found.deep_view() == names(chars@),
            forall|j: int| 0 <= j < k ==> !is_hazardous(#[trigger] names(chars@)[j]),
        decreases found.len() - k,
    {
        proof {
            lemma_chars_deep_view(found@[k as int]);
            assert(found.deep_view()[k as int] == found@[k as int]@);
        }
        if hazardous(&found[k]) {
            assert(is_hazardous(names(chars@)[k as int]));
            return false;
        }
        k += 1;
    }
    true
}

fn whole(shortest: &Vec<char>) -> (r: bool)
    ensures
        r == is_whole(shortest@),
{
    let n: usize = shortest.len();
    if n == 0 || !('0' <= shortest[n - 1] && shortest[n - 1] <= '9') {
        return false;
    }
    let mut i: usize = 0;
    while i < n
        invariant
            i <= n,
            n == shortest.len(),
            forall|j: int| 0 <= j < i ==> #[trigger] shortest@[j] != '.',
        decreases n - i,
    {
        if shortest[i] == '.' {
            return false;
        }
        i += 1;
    }
    true
}

/// The text that shows a value.
pub fn format_expression_result(value: &Evaluated) -> (text: String)
    ensures
        text@ == formatted(value@),
{
    match value {
        Evaluated::Integer(number) => string_from(&render_integer(*number)),
        Evaluated::Float { shortest, fixed, truncated } => {
            if whole(&chars_of(shortest.as_str())) {
                string_from(&render_integer(*truncated))
            } else {
                let mut chars = chars_of(fixed.as_str());
                trim_trailing(&mut chars, '0');
                if chars.len() > 0 && chars[chars.len() - 1] == '.' {
                    chars.pop();
                }
                string_from(&chars)
            }
        },
        Evaluated::Other(text) => text.clone(),
    }
}

/// The expression with each whole number read as a floating-point number.
pub fn promote(chars: &Vec<char>) -> (out: Vec<char>)
    ensures
        out@ == promoted(chars@),
{
    let mut out: Vec<char> = Vec::new();
    let mut in_quotes = false;
    let mut escaped = false;
    let mut in_name = false;
    let mut all_digits = false;
    let mut i: usize = 0;
    assert(chars@.take(0) =~= Seq::<char>::empty());
    while i < chars.len()
        invariant
            i <= chars.len(),
            whole_scan(chars@.take(i as int)) == (WholeScan {
                text: out@,
                in_quotes,
                escaped,
                in_name,
                all_digits,
            }),
        decreases chars.len() - i,
    {
        assert(chars@.take(i + 1).drop_last() =~= chars@.take(i as int));
        let c = chars[i];
        if in_quotes {
            out.push(c);
            in_quotes = escaped || c != '"';
            escaped = !escaped && c == '\\';
            in_name = false;
            all_digits = false;
        } else if symbol(c) || c == '"' || whitespace(c) {
            if in_name && all_digits {
                let ghost before = out@;
                out.push('.');
                out.push('0');
                assert(out@ =~= before + seq!['.', '0']);
            }
            out.push(c);
            in_quotes = c == '"';
            escaped = false;
            in_name = false;
            all_digits = false;
        } else {
            out.push(c);
            all_digits = (!in_name || all_digits) && '0' <= c && c <= '9';
            in_name = true;
            escaped = false;
        }
        i += 1;
    }
    assert(chars@.take(chars.len() as int) =~= chars@);
    if in_name && all_digits {
        let ghost before = out@;
        out.push('.');
        out.push('0');
        assert(out@ =~= before + seq!['.', '0']);
    }
    out
}

fn holds_division(chars: &Vec<char>) -> (r: bool)
    ensures
        r == has_division(chars@),
{
    let mut i: usize = 0;
    while i < chars.len()
        invariant
            i <= chars.len(),
            forall|j: int| 0 <= j < i ==> #[trigger] chars@[j] != '/',
        decreases chars.len() - i,
    {
        if chars[i] == '/' {
            return true;
        }
        i += 1;
    }
    false
}

fn is_integer(value: &Evaluated) -> (r: bool)
    ensures
        r == (value@ is Integer),
{
    match value {
        Evaluated::Integer(_) => true,
        _ => false,
    }
}

fn is_float(value: &Evaluated) -> (r: bool)
    ensures
        r == (value@ is Float),
{
    match value {
        Evaluated::Float { .. } => true,
        _ => false,
    }
}

/// The calculator's answer for the values that the evaluator gave, or for
/// none: `value` for the expression, `exact` for its form with whole numbers
/// read as floating-point numbers.
pub fn calculate(expression: &str, value: Option<Evaluated>, exact: Option<Evaluated>) -> (answer:
    Option<String>)
    ensures
        answer.deep_view() == calculated(expression@, value.deep_view(), exact.deep_view()),
{
    let chars = chars_of(expression);
    if !holds_operator(&chars) || !evaluable(&chars) {
        return None;
    }
    let number = match value {
        Some(number) => number,
        None => {
            return None;
        },
    };
    if is_integer(&number) && holds_division(&chars) && evaluable(&promote(&chars)) {
        if let Some(better) = exact {
            if is_float(&better) {
                return Some(format_expression_result(&better));
            }
        }
    }
    Some(format_expression_result(&number))
}

/// The value of `expression` as text, if it is an arithmetic expression:
/// its value as the evaluator computes it, formatted. A quotient of whole
/// numbers keeps its fraction.
pub fn try_evaluate_expression(expression: &str) -> (answer: Option<String>)
    ensures
        answer.deep_view() == calculation(expression@),
{
    let chars = chars_of(expression);
    if !holds_operator(&chars) || !evaluable(&chars) {
        return None;
    }
    let value = evaluate(expression, FRACTION_DIGITS);
    let exact = match &value {
        Some(number) => {
            let floating = promote(&chars);
            if is_integer(number) && holds_division(&chars) && evaluable(&floating) {
                evaluate(string_from(&floating).as_str(), FRACTION_DIGITS)
            } else {
                None
            }
        },
        None => None,
    };
    calculate(expression, value, exact)
}

} // verus!
