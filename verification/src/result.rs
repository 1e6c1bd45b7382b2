//! What a tool's return value becomes: a tool result, either built of text
//! content and flagged as an error or not, or one the tool built itself.
use rmcp::model::CallToolResult;
use vstd::prelude::*;

verus! {

#[verifier::external_type_specification]
#[verifier::external_body]
pub struct ExCallToolResult(CallToolResult);

/// The result of a tool call.
#[derive(Debug)]
pub enum ToolResult {
    /// Text content, and whether it reports an error.
    Text { content: Vec<String>, is_error: Option<bool> },
    /// A result the tool built itself, passed on unchanged.
    Given(CallToolResult),
}

/// A tool result as mathematical values.
pub enum ToolResultView {
    Text { content: Seq<Seq<char>>, is_error: Option<bool> },
    Given(CallToolResult),
}

impl View for ToolResult {
    type V = ToolResultView;

    open spec fn view(&self) -> ToolResultView {
        match self {
            ToolResult::Text { content, is_error } => ToolResultView::Text {
                content: content@.map_values(|t: String| t@),
                is_error: *is_error,
            },
            ToolResult::Given(r) => ToolResultView::Given(*r),
        }
    }
}

/// A successful result with this content.
pub open spec fn success_spec(content: Seq<Seq<char>>) -> ToolResultView {
    ToolResultView::Text { content, is_error: Some(false) }
}

/// A result that reports an error, with this content.
pub open spec fn error_spec(content: Seq<Seq<char>>) -> ToolResultView {
    ToolResultView::Text { content, is_error: Some(true) }
}

/// A successful result of one text.
pub open spec fn text_success(text: Seq<char>) -> ToolResultView {
    success_spec(seq![text])
}

impl ToolResult {
    /// A successful result with this content.
    pub fn success(content: Vec<String>) -> (r: ToolResult)
        ensures
            r@ == success_spec(content@.map_values(|t: String| t@)),
    {
        ToolResult::Text { content, is_error: Some(false) }
    }

    /// A result that reports an error, with this content.
    pub fn error(content: Vec<String>) -> (r: ToolResult)
        ensures
            r@ == error_spec(content@.map_values(|t: String| t@)),
    {
        ToolResult::Text { content, is_error: Some(true) }
    }

    /// A successful result of the one text `text`.
    pub fn text(text: String) -> (r: ToolResult)
        ensures
            r@ == text_success(text@),
    {
        let mut content: Vec<String> = Vec::new();
        content.push(text);
        assert(content@.map_values(|t: String| t@) =~= seq![text@]);
        ToolResult::success(content)
    }

    /// A result that reports an error with the one text `text`.
    pub fn error_text(text: String) -> (r: ToolResult)
        ensures
            r@ == error_spec(seq![text@]),
    {
        let mut content: Vec<String> = Vec::new();
        content.push(text);
        assert(content@.map_values(|t: String| t@) =~= seq![text@]);
        ToolResult::error(content)
    }

    /// A successful result without content.
    pub fn empty() -> (r: ToolResult)
        ensures
            r@ == success_spec(Seq::empty()),
    {
        let content: Vec<String> = Vec::new();
        assert(content@.map_values(|t: String| t@) =~= Seq::<Seq<char>>::empty());
        ToolResult::success(content)
    }
}

/// The character of the decimal digit `d`.
pub open spec fn digit_char(d: nat) -> char {
    (48 + d) as char
}

/// The decimal digits of `n`, most significant first, without leading zeros.
pub open spec fn decimal_digits(n: nat) -> Seq<char>
    decreases n,
{
    if n < 10 {
        seq![digit_char(n)]
    } else {
        decimal_digits(n / 10).push(digit_char(n % 10))
    }
}

/// The decimal text of `i`: its digits, after a minus sign when negative.
pub open spec fn decimal_text(i: int) -> Seq<char> {
    if i < 0 {
        seq!['-'] + decimal_digits((-i) as nat)
    } else {
        decimal_digits(i as nat)
    }
}

/// Whether `c` is one of the characters `0` to `9`.
pub open spec fn is_decimal_digit(c: char) -> bool {
    48 <= (c as u32) <= 57
}

/// The number that a text of decimal digits denotes, read in base 10.
pub open spec fn digits_value(s: Seq<char>) -> int
    decreases s.len(),
{
    if s.len() == 0 {
        0
    } else {
        10 * digits_value(s.drop_last()) + ((s.last() as u32) - 48)
    }
}

/// The decimal text of a natural number is a non-empty text of digits that
/// reads back as the number, and it starts with `0` only when the number is 0.
pub proof fn law_decimal_digits_read_back(n: nat)
    ensures
        decimal_digits(n).len() > 0,
        forall|i: int| 0 <= i < decimal_digits(n).len() ==> is_decimal_digit(#[trigger] decimal_digits(n)[i]),
        digits_value(decimal_digits(n)) == n,
        (decimal_digits(n)[0] as u32 == 48) <==> n == 0,
    decreases n,
{
    if n < 10 {
        let c = digit_char(n);
        assert((c as u32) == 48 + n);
        assert(decimal_digits(n) =~= seq![c]);
        assert(seq![c].drop_last() =~= Seq::<char>::empty());
        assert(digits_value(seq![c]) == 10 * digits_value(Seq::<char>::empty()) + ((c as u32) - 48));
    } else {
        law_decimal_digits_read_back(n / 10);
        let front = decimal_digits(n / 10);
        let c = digit_char(n % 10);
        assert((c as u32) == 48 + n % 10);
        let d = front.push(c);
        assert(d.drop_last() =~= front);
        assert(digits_value(d) == 10 * digits_value(front) + ((c as u32) - 48));
        assert(n == 10 * (n / 10) + n % 10);
        assert forall|i: int| 0 <= i < d.len() implies is_decimal_digit(#[trigger] d[i]) by {
            if i < front.len() {
                assert(d[i] == front[i]);
            }
        }
        assert(d[0] == front[0]);
        assert(n / 10 != 0);
    }
}

/// The decimal text of an integer: the digits of a non-negative number read
/// back as it; a negative number is a minus sign before the digits of its
/// magnitude.
pub proof fn law_decimal_text_read_back(i: int)
    ensures
        i >= 0 ==> digits_value(decimal_text(i)) == i && forall|k: int|
            0 <= k < decimal_text(i).len() ==> is_decimal_digit(#[trigger] decimal_text(i)[k]),
        i < 0 ==> decimal_text(i)[0] == '-' && digits_value(decimal_text(i).drop_first()) == -i,
{
    if i >= 0 {
        law_decimal_digits_read_back(i as nat);
    } else {
        law_decimal_digits_read_back((-i) as nat);
        assert(decimal_text(i).drop_first() =~= decimal_digits((-i) as nat));
    }
}

/// The text of the decimal digit `d`.
fn digit_str(d: u128) -> (r: &'static str)
    requires
        d < 10,
    ensures
        r@ == seq![digit_char(d as nat)],
{
    match d {
        0 => {
            proof {
                reveal_strlit("0");
            }
            "0"
        },
        1 => {
            proof {
                reveal_strlit("1");
            }
            "1"
        },
        2 => {
            proof {
                reveal_strlit("2");
            }
            "2"
        },
        3 => {
            proof {
                reveal_strlit("3");
            }
            "3"
        },
        4 => {
            proof {
                reveal_strlit("4");
            }
            "4"
        },
        5 => {
            proof {
                reveal_strlit("5");
            }
            "5"
        },
        6 => {
            proof {
                reveal_strlit("6");
            }
            "6"
        },
        7 => {
            proof {
                reveal_strlit("7");
            }
            "7"
        },
        8 => {
            proof {
                reveal_strlit("8");
            }
            "8"
        },
        _ => {
            proof {
                reveal_strlit("9");
            }
            "9"
        },
    }
}

/// Appends the decimal digits of `n` to `out`.
fn append_digits(out: &mut String, n: u128)
    ensures
        final(out)@ == old(out)@ + decimal_digits(n as nat),
    decreases n,
{
    if n >= 10 {
        append_digits(out, n / 10);
    }
    out.append(digit_str(n % 10));
    proof {
        if n < 10 {
            assert(decimal_digits(n as nat) =~= seq![digit_char(n as nat)]);
        }
    }
    assert(out@ =~= old(out)@ + decimal_digits(n as nat));
}

/// The decimal text of `x`, as `u128::to_string` writes it.
pub fn u128_text(x: u128) -> (r: String)
    ensures
        r@ == decimal_text(x as int),
{
    let mut out = String::new();
    append_digits(&mut out, x);
    assert(out@ =~= decimal_text(x as int));
    out
}

/// The decimal text of `x`, as `i128::to_string` writes it: a minus sign
/// before the digits of a negative number.
pub fn i128_text(x: i128) -> (r: String)
    ensures
        r@ == decimal_text(x as int),
{
    if x < 0 {
        let magnitude: u128 = (-(x + 1)) as u128 + 1;
        let mut out = String::from_str("-");
        proof {
            reveal_strlit("-");
        }
        append_digits(&mut out, magnitude);
        assert(out@ =~= decimal_text(x as int));
        out
    } else {
        u128_text(x as u128)
    }
}

/// `char::to_string`: the string of that one character. (vstd specifies no
/// call that puts a single character into a string.)
#[verifier::external_body]
fn char_text(c: char) -> (r: String)
    ensures
        r@ == seq![c],
{
    c.to_string()
}

/// What a serialisation outcome becomes: its text as a success, or the
/// error's text as an error.
pub open spec fn json_result_spec(outcome: Result<Seq<char>, Seq<char>>) -> ToolResultView {
    match outcome {
        Ok(text) => text_success(text),
        Err(text) => error_spec(seq![text]),
    }
}

/// The result for a value serialised to JSON, given the outcome of the
/// serialisation: the JSON text as success, or the serialisation error's
/// text as an error.
pub fn json_text_result(outcome: Result<String, String>) -> (r: ToolResult)
    ensures
        r@ == json_result_spec(
            match outcome {
                Ok(t) => Ok(t@),
                Err(t) => Err(t@),
            },
        ),
{
    match outcome {
        Ok(text) => ToolResult::text(text),
        Err(text) => ToolResult::error_text(text),
    }
}

/// A value that a tool can return.
pub trait IntoToolResult: Sized {
    /// Whether `result` is what this value becomes. Of a type that does not
    /// say, nothing is known.
    open spec fn converts_to(self, result: ToolResultView) -> bool {
        true
    }

    /// The tool result that this value becomes.
    fn into_tool_result(self) -> (result: ToolResult)
        ensures
            self.converts_to(result@),
    ;
}

impl IntoToolResult for String {
    /// A string becomes a success with that one text.
    open spec fn converts_to(self, result: ToolResultView) -> bool {
        result == text_success(self@)
    }

    fn into_tool_result(self) -> (result: ToolResult) {
        ToolResult::text(self)
    }
}

impl<'a> IntoToolResult for &'a str {
    /// A string slice becomes a success with that one text.
    open spec fn converts_to(self, result: ToolResultView) -> bool {
        result == text_success(self@)
    }

    fn into_tool_result(self) -> (result: ToolResult) {
        ToolResult::text(String::from_str(self))
    }
}

impl IntoToolResult for () {
    /// Nothing becomes a success without content.
    open spec fn converts_to(self, result: ToolResultView) -> bool {
        result == success_spec(Seq::empty())
    }

    fn into_tool_result(self) -> (result: ToolResult) {
        ToolResult::empty()
    }
}

impl IntoToolResult for ToolResult {
    /// A tool result stays as it is.
    open spec fn converts_to(self, result: ToolResultView) -> bool {
        result == self@
    }

    fn into_tool_result(self) -> (result: ToolResult) {
        self
    }
}

impl IntoToolResult for CallToolResult {
    /// A result the tool built itself is passed on unchanged.
    open spec fn converts_to(self, result: ToolResultView) -> bool {
        result == ToolResultView::Given(self)
    }

    fn into_tool_result(self) -> (result: ToolResult) {
        ToolResult::Given(self)
    }
}

impl<T: IntoToolResult> IntoToolResult for Option<T> {
    /// `Some(v)` becomes what `v` becomes; `None` a success without content.
    open spec fn converts_to(self, result: ToolResultView) -> bool {
        match self {
            Some(v) => v.converts_to(result),
            None => result == success_spec(Seq::empty()),
        }
    }

    fn into_tool_result(self) -> (result: ToolResult) {
        match self {
            Some(v) => v.into_tool_result(),
            None => {
                ToolResult::empty()
            },
        }
    }
}

impl<T: IntoToolResult, E: std::fmt::Display> IntoToolResult for Result<T, E> {
    /// `Ok(v)` becomes what `v` becomes; `Err(e)` an error whose one text is
    /// the display text of `e`.
    open spec fn converts_to(self, result: ToolResultView) -> bool {
        match self {
            Ok(v) => v.converts_to(result),
            Err(e) => exists|text: String|
                #[trigger] vstd::string::to_string_from_display_ensures::<E>(&e, text)
                    && result == error_spec(seq![text@]),
        }
    }

    fn into_tool_result(self) -> (result: ToolResult) {
        match self {
            Ok(v) => v.into_tool_result(),
            Err(e) => {
                let text = e.to_string();
                let ghost shown = text;
                let r = ToolResult::error_text(text);
                assert(vstd::string::to_string_from_display_ensures::<E>(&e, shown));
                r
            },
        }
    }
}

/// What a `Result` becomes: `Ok(v)` becomes exactly what `v` becomes, and
/// `Err(_)` becomes a result flagged as an error with exactly one text; an
/// `Option` becomes what its value becomes, or an unflagged empty success.
pub proof fn law_result_and_option_conversion<T: IntoToolResult, E: std::fmt::Display>(
    x: Result<T, E>,
    o: Option<T>,
    r: ToolResultView,
)
    ensures
        x matches Ok(v) ==> (x.converts_to(r) <==> v.converts_to(r)),
        (x is Err && x.converts_to(r)) ==> (r matches ToolResultView::Text { content, is_error }
            && is_error == Some(true) && content.len() == 1),
        o matches Some(v) ==> (o.converts_to(r) <==> v.converts_to(r)),
        (o is None && o.converts_to(r)) ==> (r matches ToolResultView::Text { content, is_error }
            && is_error == Some(false) && content.len() == 0),
{
}

impl IntoToolResult for bool {
    /// A boolean becomes a success with the text `true` or `false`.
    open spec fn converts_to(self, result: ToolResultView) -> bool {
        result == text_success(if self { "true"@ } else { "false"@ })
    }

    fn into_tool_result(self) -> (result: ToolResult) {
        if self {
            ToolResult::text(String::from_str("true"))
        } else {
            ToolResult::text(String::from_str("false"))
        }
    }
}

impl IntoToolResult for char {
    /// A character becomes a success with the text of that character.
    open spec fn converts_to(self, result: ToolResultView) -> bool {
        result == text_success(seq![self])
    }

    fn into_tool_result(self) -> (result: ToolResult) {
        ToolResult::text(char_text(self))
    }
}

impl IntoToolResult for i8 {
    /// An integer becomes a success with its decimal text.
    open spec fn converts_to(self, result: ToolResultView) -> bool {
        result == text_success(decimal_text(self as int))
    }

    fn into_tool_result(self) -> (result: ToolResult) {
        ToolResult::text(i128_text(self as i128))
    }
}

impl IntoToolResult for i16 {
    /// An integer becomes a success with its decimal text.
    open spec fn converts_to(self, result: ToolResultView) -> bool {
        result == text_success(decimal_text(self as int))
    }

    fn into_tool_result(self) -> (result: ToolResult) {
        ToolResult::text(i128_text(self as i128))
    }
}

impl IntoToolResult for i32 {
    /// An integer becomes a success with its decimal text.
    open spec fn converts_to(self, result: ToolResultView) -> bool {
        result == text_success(decimal_text(self as int))
    }

    fn into_tool_result(self) -> (result: ToolResult) {
        ToolResult::text(i128_text(self as i128))
    }
}

impl IntoToolResult for i64 {
    /// An integer becomes a success with its decimal text.
    open spec fn converts_to(self, result: ToolResultView) -> bool {
        result == text_success(decimal_text(self as int))
    }

    fn into_tool_result(self) -> (result: ToolResult) {
        ToolResult::text(i128_text(self as i128))
    }
}

impl IntoToolResult for i128 {
    /// An integer becomes a success with its decimal text.
    open spec fn converts_to(self, result: ToolResultView) -> bool {
        result == text_success(decimal_text(self as int))
    }

    fn into_tool_result(self) -> (result: ToolResult) {
        ToolResult::text(i128_text(self as i128))
    }
}

impl IntoToolResult for isize {
    /// An integer becomes a success with its decimal text.
    open spec fn converts_to(self, result: ToolResultView) -> bool {
        result == text_success(decimal_text(self as int))
    }

    fn into_tool_result(self) -> (result: ToolResult) {
        ToolResult::text(i128_text(self as i128))
    }
}

impl IntoToolResult for u8 {
    /// An integer becomes a success with its decimal text.
    open spec fn converts_to(self, result: ToolResultView) -> bool {
        result == text_success(decimal_text(self as int))
    }

    fn into_tool_result(self) -> (result: ToolResult) {
        ToolResult::text(u128_text(self as u128))
    }
}

impl IntoToolResult for u16 {
    /// An integer becomes a success with its decimal text.
    open spec fn converts_to(self, result: ToolResultView) -> bool {
        result == text_success(decimal_text(self as int))
    }

    fn into_tool_result(self) -> (result: ToolResult) {
        ToolResult::text(u128_text(self as u128))
    }
}

impl IntoToolResult for u32 {
    /// An integer becomes a success with its decimal text.
    open spec fn converts_to(self, result: ToolResultView) -> bool {
        result == text_success(decimal_text(self as int))
    }

    fn into_tool_result(self) -> (result: ToolResult) {
        ToolResult::text(u128_text(self as u128))
    }
}

impl IntoToolResult for u64 {
    /// An integer becomes a success with its decimal text.
    open spec fn converts_to(self, result: ToolResultView) -> bool {
        result == text_success(decimal_text(self as int))
    }

    fn into_tool_result(self) -> (result: ToolResult) {
        ToolResult::text(u128_text(self as u128))
    }
}

impl IntoToolResult for usize {
    /// An integer becomes a success with its decimal text.
    open spec fn converts_to(self, result: ToolResultView) -> bool {
        result == text_success(decimal_text(self as int))
    }

    fn into_tool_result(self) -> (result: ToolResult) {
        ToolResult::text(u128_text(self as u128))
    }
}

impl IntoToolResult for u128 {
    /// An integer becomes a success with its decimal text.
    open spec fn converts_to(self, result: ToolResultView) -> bool {
        result == text_success(decimal_text(self as int))
    }

    fn into_tool_result(self) -> (result: ToolResult) {
        ToolResult::text(u128_text(self as u128))
    }
}

} // verus!
