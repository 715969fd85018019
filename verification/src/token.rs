//! The tokenizer: cuts a line of text into classified lexemes.

use vstd::prelude::*;
use vstd::string::*;

verus! {

/// What a lexeme is.
#[derive(Debug, Clone, Copy, PartialEq, Eq, Structural)]
pub enum TokenKind {
    Unknown,
    EndOfFile,
    Number,
    Identifier,
    Plus,
    Minus,
    Star,
    Slash,
    Percent,
    Caret,
    Comma,
    LeftParenthesis,
    RightParenthesis,
}

/// A lexeme of the source text together with its classification.
#[derive(Debug, Clone, Copy)]
pub struct Token<'a> {
    pub lexeme: &'a str,
    pub kind: TokenKind,
}

/// A token as contracts speak of it: the lexeme is the text it holds.
pub struct TokenView {
    pub lexeme: Seq<char>,
    pub kind: TokenKind,
}

impl<'a> View for Token<'a> {
    type V = TokenView;

    open spec fn view(&self) -> TokenView {
        TokenView { lexeme: self.lexeme@, kind: self.kind }
    }
}

/// The runs of characters that the tokenizer follows to their end.
pub enum CharClass {
    /// White space between tokens.
    Space,
    /// Decimal digits.
    Digit,
    /// What may follow the first character of an identifier.
    Word,
    /// What belongs to no other token.
    Stray,
}

/// What `char::is_alphabetic` answers for a character.
pub uninterp spec fn alphabetic(c: char) -> bool;

/// What `char::is_alphanumeric` answers for a character.
pub uninterp spec fn alphanumeric(c: char) -> bool;

/// `char::is_alphabetic` answers by Unicode's `Alphabetic` property. Among
/// the ASCII characters the letters have it and no other, and no white
/// space character has it.
pub assume_specification[ char::is_alphabetic ](c: char) -> (b: bool)
    ensures
        b == alphabetic(c),
        ascii(c) ==> b == ascii_letter(c),
        whitespace(c) ==> !b,
;

/// `char::is_alphanumeric` answers whether a character is alphabetic or
/// numeric by Unicode's tables. Among the ASCII characters the letters and
/// the digits are, and no other, and no white space character is.
pub assume_specification[ char::is_alphanumeric ](c: char) -> (b: bool)
    ensures
        b == alphanumeric(c),
        ascii(c) ==> b == (ascii_letter(c) || digit(c)),
        whitespace(c) ==> !b,
;

/// The ASCII characters.
pub open spec fn ascii(c: char) -> bool {
    c as u32 <= 0x7F
}

/// The letters among the ASCII characters.
pub open spec fn ascii_letter(c: char) -> bool {
    'a' <= c <= 'z' || 'A' <= c <= 'Z'
}

/// The letters: the ASCII letters, and beyond ASCII what Unicode holds
/// to be alphabetic.
pub open spec fn letter(c: char) -> bool {
    if ascii(c) {
        ascii_letter(c)
    } else {
        alphabetic(c) && !whitespace(c)
    }
}

/// The letters and digits: those of ASCII, and beyond ASCII what Unicode
/// holds to be alphabetic or numeric.
pub open spec fn letter_or_digit(c: char) -> bool {
    if ascii(c) {
        ascii_letter(c) || digit(c)
    } else {
        alphanumeric(c) && !whitespace(c)
    }
}

/// The characters with Unicode's `White_Space` property.
pub open spec fn whitespace(c: char) -> bool {
    let n = c as u32;
    ||| 0x09 <= n <= 0x0D
    ||| n == 0x20
    ||| n == 0x85
    ||| n == 0xA0
    ||| n == 0x1680
    ||| 0x2000 <= n <= 0x200A
    ||| n == 0x2028
    ||| n == 0x2029
    ||| n == 0x202F
    ||| n == 0x205F
    ||| n == 0x3000
}

/// The ten decimal digits.
pub open spec fn digit(c: char) -> bool {
    '0' <= c <= '9'
}

/// The characters that are a token of their own.
pub open spec fn punctuation(c: char) -> bool {
    c == '+' || c == '-' || c == '*' || c == '/' || c == '%' || c == '^' || c == ',' || c == '('
        || c == ')'
}

/// The kind of a token that starts with `c`, which starts neither a number
/// nor an identifier.
pub open spec fn symbol_kind(c: char) -> TokenKind {
    if c == '+' {
        TokenKind::Plus
    } else if c == '-' {
        TokenKind::Minus
    } else if c == '*' {
        TokenKind::Star
    } else if c == '/' {
        TokenKind::Slash
    } else if c == '%' {
        TokenKind::Percent
    } else if c == '^' {
        TokenKind::Caret
    } else if c == ',' {
        TokenKind::Comma
    } else if c == '(' {
        TokenKind::LeftParenthesis
    } else if c == ')' {
        TokenKind::RightParenthesis
    } else {
        TokenKind::Unknown
    }
}

/// Whether a number starts at `at`: a digit, or a point with a digit behind it.
pub open spec fn starts_number(s: Seq<char>, at: int) -> bool {
    0 <= at < s.len() && (digit(s[at]) || (s[at] == '.' && at + 1 < s.len() && digit(s[at + 1])))
}

/// Whether the character at `at` continues a run of the given class.
pub open spec fn in_class(s: Seq<char>, at: int, class: CharClass) -> bool {
    0 <= at < s.len() && match class {
        CharClass::Space => whitespace(s[at]),
        CharClass::Digit => digit(s[at]),
        CharClass::Word => letter_or_digit(s[at]) || s[at] == '_',
        CharClass::Stray => !(whitespace(s[at]) || starts_number(s, at) || letter(s[at])
            || punctuation(s[at])),
    }
}

/// Where the longest run of the given class that starts at `from` ends.
pub open spec fn run_end(s: Seq<char>, from: int, class: CharClass) -> int
    decreases s.len() - from,
{
    if in_class(s, from, class) {
        run_end(s, from + 1, class)
    } else {
        from
    }
}

/// Where an exponent that starts at `at` ends; `at` itself where there is
/// none, which is the case unless a digit follows the optional sign.
pub open spec fn exponent_end(s: Seq<char>, at: int) -> int {
    if 0 <= at < s.len() && (s[at] == 'e' || s[at] == 'E') {
        let digits = if at + 1 < s.len() && (s[at + 1] == '+' || s[at + 1] == '-') {
            at + 2
        } else {
            at + 1
        };
        if in_class(s, digits, CharClass::Digit) {
            run_end(s, digits, CharClass::Digit)
        } else {
            at
        }
    } else {
        at
    }
}

/// Where the number that starts at `start` ends: digits, then a point with
/// the digits behind it, then an exponent, each of which may be missing.
pub open spec fn number_end(s: Seq<char>, start: int) -> int {
    let whole = run_end(s, start, CharClass::Digit);
    let fraction = if 0 <= whole < s.len() && s[whole] == '.' {
        run_end(s, whole + 1, CharClass::Digit)
    } else {
        whole
    };
    exponent_end(s, fraction)
}

/// The kind of the token whose first character stands at `start`.
pub open spec fn token_kind(s: Seq<char>, start: int) -> TokenKind {
    if !(0 <= start < s.len()) {
        TokenKind::EndOfFile
    } else if starts_number(s, start) {
        TokenKind::Number
    } else if letter(s[start]) || s[start] == '_' {
        TokenKind::Identifier
    } else {
        symbol_kind(s[start])
    }
}

/// Where the token whose first character stands at `start` ends.
pub open spec fn token_end(s: Seq<char>, start: int) -> int {
    match token_kind(s, start) {
        TokenKind::EndOfFile => start,
        TokenKind::Number => number_end(s, start),
        TokenKind::Identifier => run_end(s, start + 1, CharClass::Word),
        TokenKind::Unknown => run_end(s, start + 1, CharClass::Stray),
        _ => start + 1,
    }
}

/// Where the next token starts when reading goes on at `from`: behind the
/// white space that stands there.
pub open spec fn token_start(s: Seq<char>, from: int) -> int {
    run_end(s, from, CharClass::Space)
}

/// The token that is read when reading goes on at `from`.
pub open spec fn token_at(s: Seq<char>, from: int) -> TokenView {
    let start = token_start(s, from);
    TokenView { lexeme: s.subrange(start, token_end(s, start)), kind: token_kind(s, start) }
}

/// Where reading goes on behind the token that is read from `from`.
pub open spec fn token_behind(s: Seq<char>, from: int) -> int {
    token_end(s, token_start(s, from))
}

/// The tokens that are read from `from` on, up to the first `EndOfFile`,
/// which is the last of them.
pub open spec fn tokens_from(s: Seq<char>, from: int) -> Seq<TokenView>
    decreases s.len() - from,
{
    if token_at(s, from).kind == TokenKind::EndOfFile {
        seq![token_at(s, from)]
    } else {
        proof {
            lemma_token_bounds(s, from);
        }
        seq![token_at(s, from)] + tokens_from(s, token_behind(s, from))
    }
}

/// A run ends at or behind its start, within the text, and at a character
/// that does not continue it.
pub proof fn lemma_run_end(s: Seq<char>, from: int, class: CharClass)
    requires
        0 <= from <= s.len(),
    ensures
        from <= run_end(s, from, class) <= s.len(),
        !in_class(s, run_end(s, from, class), class),
        forall|i: int| from <= i < run_end(s, from, class) ==> in_class(s, i, class),
    decreases s.len() - from,
{
    if in_class(s, from, class) {
        lemma_run_end(s, from + 1, class);
    }
}

/// A token starts at or behind the place where reading goes on and ends
/// within the text; unless it is `EndOfFile`, it holds at least one
/// character, and its first character is no white space.
pub proof fn lemma_token_bounds(s: Seq<char>, from: int)
    ensures
        token_at(s, from).kind != TokenKind::EndOfFile ==> {
            &&& 0 <= from <= token_start(s, from) < token_behind(s, from) <= s.len()
            &&& !whitespace(s[token_start(s, from)])
        },
        token_at(s, from).kind == TokenKind::EndOfFile && 0 <= from <= s.len() ==> token_start(
            s,
            from,
        ) == token_behind(s, from) == s.len(),
{
    if 0 <= from <= s.len() {
        let start = token_start(s, from);
        lemma_run_end(s, from, CharClass::Space);
        if start < s.len() {
            lemma_run_end(s, start + 1, CharClass::Word);
            lemma_run_end(s, start + 1, CharClass::Stray);
            lemma_number_bounds(s, start);
        }
    } else {
        assert(!in_class(s, from, CharClass::Space));
    }
}

/// A number holds at least one character and ends within the text.
pub proof fn lemma_number_bounds(s: Seq<char>, start: int)
    requires
        0 <= start < s.len(),
    ensures
        start <= number_end(s, start) <= s.len(),
        starts_number(s, start) ==> start < number_end(s, start),
{
    lemma_run_end(s, start, CharClass::Digit);
    lemma_run_end(s, start + 1, CharClass::Digit);
    let whole = run_end(s, start, CharClass::Digit);
    let fraction = if whole < s.len() && s[whole] == '.' {
        run_end(s, whole + 1, CharClass::Digit)
    } else {
        whole
    };
    if whole < s.len() {
        lemma_run_end(s, whole + 1, CharClass::Digit);
    }
    if fraction + 2 <= s.len() {
        lemma_run_end(s, fraction + 2, CharClass::Digit);
    }
    if fraction + 1 <= s.len() {
        lemma_run_end(s, fraction + 1, CharClass::Digit);
    }
}

/// The text without its white space.
pub open spec fn content(s: Seq<char>) -> Seq<char>
    decreases s.len(),
{
    if s.len() == 0 {
        s
    } else if whitespace(s.last()) {
        content(s.drop_last())
    } else {
        content(s.drop_last()).push(s.last())
    }
}

/// Whether no character of `s` is white space.
pub open spec fn solid(s: Seq<char>) -> bool {
    forall|i: int| 0 <= i < s.len() ==> !whitespace(#[trigger] s[i])
}

/// Whether every character of `s` is white space.
pub open spec fn blank(s: Seq<char>) -> bool {
    forall|i: int| 0 <= i < s.len() ==> whitespace(#[trigger] s[i])
}

/// The lexemes of the tokens, one behind the other.
pub open spec fn joined(tokens: Seq<TokenView>) -> Seq<char>
    decreases tokens.len(),
{
    if tokens.len() == 0 {
        Seq::empty()
    } else {
        joined(tokens.drop_last()) + tokens.last().lexeme
    }
}

/// The content of two texts, one behind the other, is the content of the
/// first and behind it that of the second.
pub proof fn lemma_content_add(a: Seq<char>, b: Seq<char>)
    ensures
        content(a + b) == content(a) + content(b),
    decreases b.len(),
{
    if b.len() == 0 {
        assert(a + b =~= a);
        assert(content(a) + content(b) =~= content(a));
    } else {
        lemma_content_add(a, b.drop_last());
        assert((a + b).drop_last() =~= a + b.drop_last());
        assert((a + b).last() == b.last());
        assert(content(a + b) =~= content(a) + content(b));
    }
}

/// White space has no content.
pub proof fn lemma_content_blank(s: Seq<char>)
    requires
        blank(s),
    ensures
        content(s) == Seq::<char>::empty(),
    decreases s.len(),
{
    if s.len() > 0 {
        assert(whitespace(s.last()));
        lemma_content_blank(s.drop_last());
    }
}

/// A text without white space is its own content.
pub proof fn lemma_content_solid(s: Seq<char>)
    requires
        solid(s),
    ensures
        content(s) == s,
    decreases s.len(),
{
    if s.len() > 0 {
        assert(!whitespace(s.last()));
        lemma_content_solid(s.drop_last());
        assert(s.drop_last().push(s.last()) =~= s);
    }
}

/// The lexemes of two rows of tokens, one behind the other, are those of
/// the first and behind them those of the second.
pub proof fn lemma_joined_add(a: Seq<TokenView>, b: Seq<TokenView>)
    ensures
        joined(a + b) == joined(a) + joined(b),
    decreases b.len(),
{
    if b.len() == 0 {
        assert(a + b =~= a);
        assert(joined(a) + joined(b) =~= joined(a));
    } else {
        lemma_joined_add(a, b.drop_last());
        assert((a + b).drop_last() =~= a + b.drop_last());
        assert((a + b).last() == b.last());
        assert(joined(a + b) =~= joined(a) + joined(b));
    }
}

/// No lexeme holds white space.
pub proof fn lemma_lexeme_solid(s: Seq<char>, from: int)
    requires
        0 <= from <= s.len(),
    ensures
        solid(token_at(s, from).lexeme),
{
    let start = token_start(s, from);
    let end = token_behind(s, from);
    let lexeme = token_at(s, from).lexeme;
    if token_at(s, from).kind != TokenKind::EndOfFile {
        lemma_token_bounds(s, from);
        lemma_run_end(s, start + 1, CharClass::Word);
        lemma_run_end(s, start + 1, CharClass::Stray);
        lemma_number_solid(s, start);
        assert forall|i: int| 0 <= i < lexeme.len() implies !whitespace(#[trigger] lexeme[i]) by {
            if token_at(s, from).kind != TokenKind::Number && i > 0 {
                assert(in_class(s, start + i, CharClass::Word) || in_class(
                    s,
                    start + i,
                    CharClass::Stray,
                ));
            }
        }
    } else {
        lemma_token_bounds(s, from);
    }
}

/// No number holds white space.
pub proof fn lemma_number_solid(s: Seq<char>, start: int)
    requires
        0 <= start < s.len(),
    ensures
        forall|i: int| start <= i < number_end(s, start) ==> !whitespace(#[trigger] s[i]),
{
    lemma_number_bounds(s, start);
    lemma_run_end(s, start, CharClass::Digit);
    let whole = run_end(s, start, CharClass::Digit);
    if whole < s.len() {
        lemma_run_end(s, whole + 1, CharClass::Digit);
    }
    let fraction = if whole < s.len() && s[whole] == '.' {
        run_end(s, whole + 1, CharClass::Digit)
    } else {
        whole
    };
    if fraction + 1 <= s.len() {
        lemma_run_end(s, fraction + 1, CharClass::Digit);
    }
    if fraction + 2 <= s.len() {
        lemma_run_end(s, fraction + 2, CharClass::Digit);
    }
    assert forall|i: int| start <= i < number_end(s, start) implies !whitespace(
        #[trigger] s[i],
    ) by {
        if i < whole {
            assert(in_class(s, i, CharClass::Digit));
        } else if i == whole {
        } else if i < fraction {
            assert(in_class(s, i, CharClass::Digit));
        } else if i == fraction {
        } else if i == fraction + 1 {
        } else {
            assert(in_class(s, i, CharClass::Digit));
        }
    }
}

/// The lexemes of the tokens that are read from `from` on, one behind the
/// other, are the text from there on without its white space.
pub proof fn lemma_tokens_join(s: Seq<char>, from: int)
    requires
        0 <= from <= s.len(),
    ensures
        joined(tokens_from(s, from)) == content(s.subrange(from, s.len() as int)),
    decreases s.len() - from,
{
    let token = token_at(s, from);
    let start = token_start(s, from);
    let end = token_behind(s, from);
    let gap = s.subrange(from, start);
    lemma_token_bounds(s, from);
    lemma_run_end(s, from, CharClass::Space);
    lemma_lexeme_solid(s, from);
    assert(blank(gap)) by {
        assert forall|i: int| 0 <= i < gap.len() implies whitespace(#[trigger] gap[i]) by {
            assert(in_class(s, from + i, CharClass::Space));
        }
    }
    lemma_content_blank(gap);
    lemma_content_solid(token.lexeme);
    assert(joined(seq![token]) =~= token.lexeme) by {
        reveal_with_fuel(joined, 2);
        assert(seq![token].drop_last() =~= Seq::<TokenView>::empty());
    }
    let rest = s.subrange(end, s.len() as int);
    lemma_content_add(gap, token.lexeme);
    lemma_content_add(gap + token.lexeme, rest);
    assert(s.subrange(from, s.len() as int) =~= gap + token.lexeme + rest);
    if token.kind == TokenKind::EndOfFile {
        assert(rest =~= Seq::<char>::empty());
        assert(content(s.subrange(from, s.len() as int)) =~= token.lexeme);
    } else {
        lemma_tokens_join(s, end);
        lemma_joined_add(seq![token], tokens_from(s, end));
        assert(content(s.subrange(from, s.len() as int)) =~= token.lexeme + content(rest));
    }
}

/// Whether `tokens` end with their only `EndOfFile`.
pub open spec fn ends_once(tokens: Seq<TokenView>) -> bool {
    &&& tokens.len() > 0
    &&& tokens.last().kind == TokenKind::EndOfFile
    &&& forall|i: int| 0 <= i < tokens.len() - 1 ==> (#[trigger] tokens[i]).kind != TokenKind::EndOfFile
}

/// The tokens of a text end with `EndOfFile`, and none before is one.
pub proof fn lemma_tokens_end_once(s: Seq<char>, from: int)
    ensures
        ends_once(tokens_from(s, from)),
    decreases s.len() - from,
{
    if token_at(s, from).kind != TokenKind::EndOfFile {
        lemma_token_bounds(s, from);
        lemma_tokens_end_once(s, token_behind(s, from));
    }
}

fn is_whitespace(c: char) -> (b: bool)
    ensures
        b == whitespace(c),
{
    let n: u32 = c as u32;
    (0x09 <= n && n <= 0x0D) || n == 0x20 || n == 0x85 || n == 0xA0 || n == 0x1680 || (0x2000 <= n
        && n <= 0x200A) || n == 0x2028 || n == 0x2029 || n == 0x202F || n == 0x205F || n == 0x3000
}

fn is_digit(c: char) -> (b: bool)
    ensures
        b == digit(c),
{
    '0' <= c && c <= '9'
}

fn is_punctuation(c: char) -> (b: bool)
    ensures
        b == punctuation(c),
{
    c == '+' || c == '-' || c == '*' || c == '/' || c == '%' || c == '^' || c == ',' || c == '('
        || c == ')'
}

fn is_letter(c: char) -> (b: bool)
    ensures
        b == letter(c),
{
    c.is_alphabetic()
}

fn is_letter_or_digit(c: char) -> (b: bool)
    ensures
        b == letter_or_digit(c),
{
    c.is_alphanumeric()
}

fn begins_number(chars: &Vec<char>, at: usize) -> (b: bool)
    ensures
        b == starts_number(chars@, at as int),
{
    at < chars.len() && (is_digit(chars[at]) || (chars[at] == '.' && at + 1 < chars.len()
        && is_digit(chars[at + 1])))
}

fn continues(chars: &Vec<char>, at: usize, class: &CharClass) -> (b: bool)
    ensures
        b == in_class(chars@, at as int, *class),
{
    if at >= chars.len() {
        return false;
    }
    let c = chars[at];
    match class {
        CharClass::Space => is_whitespace(c),
        CharClass::Digit => is_digit(c),
        CharClass::Word => is_letter_or_digit(c) || c == '_',
        CharClass::Stray => !(is_whitespace(c) || begins_number(chars, at) || is_letter(c)
            || is_punctuation(c)),
    }
}

/// Follows the run of the given class that starts at `from` to its end.
fn scan(chars: &Vec<char>, from: usize, class: CharClass) -> (end: usize)
    requires
        from <= chars.len(),
    ensures
        end == run_end(chars@, from as int, class),
        from <= end <= chars.len(),
{
    let mut end: usize = from;
    while continues(chars, end, &class)
        invariant
            from <= end <= chars.len(),
            run_end(chars@, end as int, class) == run_end(chars@, from as int, class),
        decreases chars.len() - end,
    {
        end += 1;
    }
    end
}

fn scan_exponent(chars: &Vec<char>, at: usize) -> (end: usize)
    requires
        at <= chars.len(),
    ensures
        end == exponent_end(chars@, at as int),
        at <= end <= chars.len(),
{
    if at < chars.len() && (chars[at] == 'e' || chars[at] == 'E') {
        let digits: usize = if at + 1 < chars.len() && (chars[at + 1] == '+' || chars[at + 1]
            == '-') {
            at + 2
        } else {
            at + 1
        };
        if continues(chars, digits, &CharClass::Digit) {
            scan(chars, digits, CharClass::Digit)
        } else {
            at
        }
    } else {
        at
    }
}

fn scan_number(chars: &Vec<char>, start: usize) -> (end: usize)
    requires
        starts_number(chars@, start as int),
    ensures
        end == number_end(chars@, start as int),
        start < end <= chars.len(),
{
    proof {
        lemma_run_end(chars@, start + 1, CharClass::Digit);
    }
    let whole = scan(chars, start, CharClass::Digit);
    let fraction = if whole < chars.len() && chars[whole] == '.' {
        scan(chars, whole + 1, CharClass::Digit)
    } else {
        whole
    };
    scan_exponent(chars, fraction)
}

fn symbol(c: char) -> (kind: TokenKind)
    ensures
        kind == symbol_kind(c),
{
    match c {
        '+' => TokenKind::Plus,
        '-' => TokenKind::Minus,
        '*' => TokenKind::Star,
        '/' => TokenKind::Slash,
        '%' => TokenKind::Percent,
        '^' => TokenKind::Caret,
        ',' => TokenKind::Comma,
        '(' => TokenKind::LeftParenthesis,
        ')' => TokenKind::RightParenthesis,
        _ => TokenKind::Unknown,
    }
}

/// A reader of tokens: a text and the place in it where reading goes on.
#[derive(Debug)]
pub struct Tokens<'a> {
    text: &'a str,
    chars: Vec<char>,
    position: usize,
}

impl<'a> Tokens<'a> {
    #[verifier::type_invariant]
    closed spec fn consistent(&self) -> bool {
        self.chars@ == self.text@ && self.position <= self.chars.len()
    }

    /// The text that is read.
    pub closed spec fn source(&self) -> Seq<char> {
        self.text@
    }

    /// How many characters of the text have been read.
    pub closed spec fn offset(&self) -> int {
        self.position as int
    }

    /// A reader at the start of `text`.
    pub fn from(text: &'a str) -> (tokens: Self)
        ensures
            tokens.source() == text@,
            tokens.offset() == 0,
    {
        let mut chars: Vec<char> = Vec::new();
        for c in it: text.chars()
            invariant
                chars@ == it.history(),
        {
            chars.push(c);
        }
        assert(chars@ == text@);
        Tokens { text, chars, position: 0 }
    }

    /// Reads the next token: skips white space, then takes the longest
    /// lexeme that starts there. At the end of the text the token is
    /// `EndOfFile` with an empty lexeme, as often as it is asked for.
    pub fn read(&mut self) -> (token: Token<'a>)
        ensures
            final(self).source() == old(self).source(),
            token@ == token_at(old(self).source(), old(self).offset()),
            final(self).offset() == token_behind(old(self).source(), old(self).offset()),
            0 <= old(self).offset() <= final(self).offset() <= old(self).source().len(),
    {
        proof {
            use_type_invariant(&*self);
        }
        let start = scan(&self.chars, self.position, CharClass::Space);
        let kind = if start >= self.chars.len() {
            TokenKind::EndOfFile
        } else if begins_number(&self.chars, start) {
            TokenKind::Number
        } else if is_letter(self.chars[start]) || self.chars[start] == '_' {
            TokenKind::Identifier
        } else {
            symbol(self.chars[start])
        };
        let end: usize = match kind {
            TokenKind::EndOfFile => start,
            TokenKind::Number => scan_number(&self.chars, start),
            TokenKind::Identifier => scan(&self.chars, start + 1, CharClass::Word),
            TokenKind::Unknown => scan(&self.chars, start + 1, CharClass::Stray),
            _ => start + 1,
        };
        self.position = end;
        Token { lexeme: self.text.substring_char(start, end), kind }
    }

    /// Reads the next token. There always is one: at the end of the text
    /// it is `EndOfFile`.
    pub fn next(&mut self) -> (token: Option<Token<'a>>)
        ensures
            final(self).source() == old(self).source(),
            token is Some,
            token->0@ == token_at(old(self).source(), old(self).offset()),
            final(self).offset() == token_behind(old(self).source(), old(self).offset()),
            0 <= old(self).offset() <= final(self).offset() <= old(self).source().len(),
    {
        Some(self.read())
    }
}

impl<'a> Clone for Tokens<'a> {
    fn clone(&self) -> (copy: Self)
        ensures
            copy.source() == self.source(),
            copy.offset() == self.offset(),
    {
        proof {
            use_type_invariant(self);
        }
        Tokens { text: self.text, chars: self.chars.clone(), position: self.position }
    }
}

/// The tokens as contracts speak of them.
pub open spec fn token_views<'a>(tokens: Seq<Token<'a>>) -> Seq<TokenView> {
    tokens.map_values(|t: Token<'a>| t@)
}

/// Reads all the tokens of `text`: those before the end, then one
/// `EndOfFile`. Their lexemes, one behind the other, are the text without
/// its white space.
pub fn tokenize<'a>(text: &'a str) -> (tokens: Vec<Token<'a>>)
    ensures
        token_views(tokens@) == tokens_from(text@, 0),
        ends_once(token_views(tokens@)),
        joined(token_views(tokens@)) == content(text@),
{
    proof {
        lemma_tokens_end_once(text@, 0);
        lemma_tokens_join(text@, 0);
        assert(text@.subrange(0, text@.len() as int) =~= text@);
    }
    let mut reader = Tokens::from(text);
    let mut tokens: Vec<Token<'a>> = Vec::new();
    loop
        invariant_except_break
            token_views(tokens@) + tokens_from(text@, reader.offset()) == tokens_from(text@, 0),
        invariant
            reader.source() == text@,
            0 <= reader.offset() <= text@.len(),
        ensures
            token_views(tokens@) == tokens_from(text@, 0),
        decreases text@.len() - reader.offset(),
    {
        let ghost before = tokens@;
        let ghost from = reader.offset();
        let token = reader.read();
        let last = token.kind == TokenKind::EndOfFile;
        tokens.push(token);
        proof {
            lemma_token_bounds(text@, from);
            assert(token_views(tokens@) == token_views(before) + seq![token@]);
            if !last {
                assert(token_views(tokens@) + tokens_from(text@, reader.offset()) == token_views(
                    before,
                ) + (seq![token@] + tokens_from(text@, reader.offset())));
            }
        }
        if last {
            break ;
        }
    }
    tokens
}

/// The name of a kind of token, as it is shown.
pub open spec fn kind_name(kind: TokenKind) -> Seq<char> {
    match kind {
        TokenKind::Unknown => "Unknown"@,
        TokenKind::EndOfFile => "EndOfFile"@,
        TokenKind::Number => "Number"@,
        TokenKind::Identifier => "Identifier"@,
        TokenKind::Plus => "Plus"@,
        TokenKind::Minus => "Minus"@,
        TokenKind::Star => "Star"@,
        TokenKind::Slash => "Slash"@,
        TokenKind::Percent => "Percent"@,
        TokenKind::Caret => "Caret"@,
        TokenKind::Comma => "Comma"@,
        TokenKind::LeftParenthesis => "LeftParenthesis"@,
        TokenKind::RightParenthesis => "RightParenthesis"@,
    }
}

/// Whether a token of this kind is shown with its lexeme.
pub open spec fn shows_lexeme(kind: TokenKind) -> bool {
    kind == TokenKind::Unknown || kind == TokenKind::Number || kind == TokenKind::Identifier
}

/// A token as it is shown: the name of its kind, and behind it, for an
/// unknown token, a number or an identifier, the lexeme in parentheses.
pub open spec fn token_text(token: TokenView) -> Seq<char> {
    if shows_lexeme(token.kind) {
        kind_name(token.kind) + "("@ + token.lexeme + ")"@
    } else {
        kind_name(token.kind)
    }
}

impl TokenKind {
    /// The name of the kind.
    pub fn name(&self) -> (name: &'static str)
        ensures
            name@ == kind_name(*self),
    {
        match self {
            TokenKind::Unknown => "Unknown",
            TokenKind::EndOfFile => "EndOfFile",
            TokenKind::Number => "Number",
            TokenKind::Identifier => "Identifier",
            TokenKind::Plus => "Plus",
            TokenKind::Minus => "Minus",
            TokenKind::Star => "Star",
            TokenKind::Slash => "Slash",
            TokenKind::Percent => "Percent",
            TokenKind::Caret => "Caret",
            TokenKind::Comma => "Comma",
            TokenKind::LeftParenthesis => "LeftParenthesis",
            TokenKind::RightParenthesis => "RightParenthesis",
        }
    }

    /// The kind as it is shown: its name.
    pub fn to_string(&self) -> (text: String)
        ensures
            text@ == kind_name(*self),
    {
        self.name().to_owned()
    }
}

impl<'a> Token<'a> {
    /// The token as it is shown.
    pub fn to_string(&self) -> (text: String)
        ensures
            text@ == token_text(self@),
    {
        let mut text = self.kind.name().to_owned();
        match self.kind {
            TokenKind::Unknown | TokenKind::Number | TokenKind::Identifier => {
                text.append("(");
                text.append(self.lexeme);
                text.append(")");
            },
            _ => {},
        }
        text
    }
}

} // verus!
