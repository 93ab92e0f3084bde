use vstd::prelude::*;
use crate::chars::{
    append_decimal, append_str, char_is_alphabetic, char_is_alphanumeric, chars_of, decimal,
    is_alphabetic, is_alphanumeric, push_char, segment_is, string_from, string_of,
};

pub mod error;
pub mod tokens;

verus! {

/// The kinds of token the lexer produces.
#[derive(Debug, Clone, Copy, PartialEq, Eq, Structural)]
pub enum TokenKind {
    LeftParen,
    RightParen,
    LeftBrace,
    RightBrace,
    LeftBracket,
    RightBracket,
    Comma,
    Dot,
    Minus,
    Plus,
    Semicolon,
    Slash,
    Star,
    Percent,
    Bang,
    BangEqual,
    Equal,
    EqualEqual,
    Greater,
    GreaterEqual,
    Less,
    LessEqual,
    AndAnd,
    OrOr,
    Arrow,
    Colon,
    Newline,
    Indent,
    Dedent,
    Identifier,
    String,
    Number,
    Let,
    Const,
    Var,
    If,
    Else,
    While,
    Print,
    True,
    False,
    Function,
    Return,
    Eof,
}

/// A token: its kind, the text it stands for and the line it ends on.
#[derive(Debug, PartialEq)]
pub struct Token {
    pub kind: TokenKind,
    pub lexeme: String,
    pub line: usize,
}

/// The mathematical value of a token.
pub struct SpecToken {
    pub kind: TokenKind,
    pub lexeme: Seq<char>,
    pub line: int,
}

impl View for Token {
    type V = SpecToken;

    open spec fn view(&self) -> SpecToken {
        SpecToken { kind: self.kind, lexeme: self.lexeme@, line: self.line as int }
    }
}

impl Clone for Token {
    fn clone(&self) -> (r: Self)
        ensures
            r == *self,
    {
        Token { kind: self.kind, lexeme: self.lexeme.clone(), line: self.line }
    }
}

/// The values of a sequence of tokens.
pub open spec fn tokens_view(ts: Seq<Token>) -> Seq<SpecToken> {
    ts.map_values(|t: Token| t@)
}


// ---------------------------------------------------------------------------
// The lexer as mathematics
// ---------------------------------------------------------------------------

/// The state of a scan: the position reached, where the current token
/// starts, the line counter, whether a line is just beginning, the stack of
/// indentation widths and the tokens produced so far.
pub struct LexState {
    pub pos: int,
    pub start: int,
    pub line: int,
    pub at_line_start: bool,
    pub indents: Seq<int>,
    pub toks: Seq<SpecToken>,
}

/// The state in which every scan begins.
pub open spec fn initial_state() -> LexState {
    LexState {
        pos: 0,
        start: 0,
        line: 1,
        at_line_start: true,
        indents: seq![0int],
        toks: Seq::empty(),
    }
}

/// The character at `p`, or `'\0'` past the end.
pub open spec fn peek_char(src: Seq<char>, p: int) -> char {
    if 0 <= p < src.len() {
        src[p]
    } else {
        '\0'
    }
}

/// ASCII digits and Arabic-Indic digits.
pub open spec fn is_digit_char(c: char) -> bool {
    ('0' <= c && c <= '9') || ('\u{0660}' <= c && c <= '\u{0669}')
}

/// The Arabic letters from alef to yeh.
pub open spec fn is_arabic_letter(c: char) -> bool {
    '\u{0627}' <= c && c <= '\u{064A}'
}

/// A character that can begin a word.
pub open spec fn starts_word(c: char) -> bool {
    char_is_alphabetic(c) || c == '_' || is_arabic_letter(c)
}

/// A character that can continue a word.
pub open spec fn continues_word(c: char) -> bool {
    char_is_alphanumeric(c) || c == '_' || is_arabic_letter(c)
}

/// The keyword that a word spells, if any; English and Arabic spellings.
pub open spec fn keyword_kind(w: Seq<char>) -> Option<TokenKind> {
    if w == "let"@ { Some(TokenKind::Let) }
    else if w == "const"@ { Some(TokenKind::Const) }
    else if w == "var"@ { Some(TokenKind::Var) }
    else if w == "if"@ { Some(TokenKind::If) }
    else if w == "else"@ { Some(TokenKind::Else) }
    else if w == "while"@ { Some(TokenKind::While) }
    else if w == "print"@ { Some(TokenKind::Print) }
    else if w == "true"@ { Some(TokenKind::True) }
    else if w == "false"@ { Some(TokenKind::False) }
    else if w == "fn"@ { Some(TokenKind::Function) }
    else if w == "return"@ { Some(TokenKind::Return) }
    else if w == "دع"@ { Some(TokenKind::Let) }
    else if w == "ثابت"@ { Some(TokenKind::Const) }
    else if w == "متغير"@ { Some(TokenKind::Var) }
    else if w == "إذا"@ { Some(TokenKind::If) }
    else if w == "اذا"@ { Some(TokenKind::If) }
    else if w == "وإلا"@ { Some(TokenKind::Else) }
    else if w == "والا"@ { Some(TokenKind::Else) }
    else if w == "طالما"@ { Some(TokenKind::While) }
    else if w == "اطبع"@ { Some(TokenKind::Print) }
    else if w == "اكتب"@ { Some(TokenKind::Print) }
    else if w == "صحيح"@ { Some(TokenKind::True) }
    else if w == "صواب"@ { Some(TokenKind::True) }
    else if w == "خطأ"@ { Some(TokenKind::False) }
    else if w == "دالة"@ { Some(TokenKind::Function) }
    else if w == "عد"@ { Some(TokenKind::Return) }
    else if w == "أرجع"@ { Some(TokenKind::Return) }
    else if w == "ارجع"@ { Some(TokenKind::Return) }
    else if w == "اصغر"@ { Some(TokenKind::Less) }
    else if w == "يساوي"@ { Some(TokenKind::EqualEqual) }
    else if w == "مساوي"@ { Some(TokenKind::EqualEqual) }
    else if w == "لا"@ { Some(TokenKind::BangEqual) }
    else if w == "و"@ { Some(TokenKind::AndAnd) }
    else if w == "أو"@ { Some(TokenKind::OrOr) }
    else if w == "او"@ { Some(TokenKind::OrOr) }
    else { None }
}

/// The message for a lone `&` or `|` on a line.
pub open spec fn lone_operator_message(op: char, line: int) -> Seq<char> {
    "Error: single "@ + seq![op] + " at line "@ + decimal(line as nat)
}

/// The message for a string literal that is never closed.
pub open spec fn unterminated_string_message() -> Seq<char> {
    "سلسلة نصية غير مغلقة."@
}

/// The message for a character the language does not know.
pub open spec fn unsupported_char_message(line: int, c: char) -> Seq<char> {
    "رموز غير مدعومة في السطر "@ + decimal(line as nat) + ": '"@ + seq![c] + "'"@
}

/// One step forward.
pub open spec fn step(st: LexState) -> LexState {
    LexState { pos: st.pos + 1, ..st }
}

/// Records a token whose text is the source from `start` to `pos`.
pub open spec fn emit(src: Seq<char>, st: LexState, kind: TokenKind) -> LexState {
    LexState {
        toks: st.toks.push(SpecToken { kind, lexeme: src.subrange(st.start, st.pos), line: st.line }),
        ..st
    }
}

/// Records a token with the given text.
pub open spec fn emit_text(st: LexState, kind: TokenKind, text: Seq<char>) -> LexState {
    LexState { toks: st.toks.push(SpecToken { kind, lexeme: text, line: st.line }), ..st }
}

/// Skips the rest of a `//` comment, up to the line feed.
pub open spec fn skip_comment(src: Seq<char>, st: LexState) -> LexState
    decreases src.len() - st.pos,
{
    if 0 <= st.pos < src.len() && src[st.pos] != '\n' {
        skip_comment(src, step(st))
    } else {
        st
    }
}

/// Scans the body of a string literal whose opening quote is behind.
pub open spec fn scan_string(src: Seq<char>, st: LexState) -> Result<LexState, Seq<char>>
    decreases src.len() - st.pos,
{
    if !(0 <= st.pos < src.len()) {
        Err(unterminated_string_message())
    } else if src[st.pos] == '"' {
        let s1 = step(st);
        Ok(emit_text(s1, TokenKind::String, src.subrange(st.start + 1, s1.pos - 1)))
    } else {
        let s1 = if src[st.pos] == '\n' { LexState { line: st.line + 1, ..st } } else { st };
        scan_string(src, step(s1))
    }
}

/// Skips a run of digits.
pub open spec fn skip_digits(src: Seq<char>, st: LexState) -> LexState
    decreases src.len() - st.pos,
{
    if 0 <= st.pos < src.len() && is_digit_char(src[st.pos]) {
        skip_digits(src, step(st))
    } else {
        st
    }
}

/// Scans the rest of a number: digits, then a fraction if a digit follows a dot.
pub open spec fn scan_number(src: Seq<char>, st: LexState) -> LexState {
    let s1 = skip_digits(src, st);
    let s2 = if peek_char(src, s1.pos) == '.' && is_digit_char(peek_char(src, s1.pos + 1)) {
        skip_digits(src, step(s1))
    } else {
        s1
    };
    emit(src, s2, TokenKind::Number)
}

/// Skips the characters that continue a word.
pub open spec fn skip_word(src: Seq<char>, st: LexState) -> LexState
    decreases src.len() - st.pos,
{
    if 0 <= st.pos < src.len() && continues_word(src[st.pos]) {
        skip_word(src, step(st))
    } else {
        st
    }
}

/// Scans the rest of a word: a keyword or an identifier.
pub open spec fn scan_word(src: Seq<char>, st: LexState) -> LexState {
    let s1 = skip_word(src, st);
    let kind = match keyword_kind(src.subrange(s1.start, s1.pos)) {
        Some(k) => k,
        None => TokenKind::Identifier,
    };
    emit(src, s1, kind)
}

/// Whether the character at `p` is `c`.
pub open spec fn next_is(src: Seq<char>, p: int, c: char) -> bool {
    0 <= p < src.len() && src[p] == c
}

/// Scans one token starting at `pos` (which is inside the source).
pub open spec fn scan_token(src: Seq<char>, st: LexState) -> Result<LexState, Seq<char>> {
    let c = src[st.pos];
    let s1 = step(st);
    if c == '(' { Ok(emit(src, s1, TokenKind::LeftParen)) }
    else if c == ')' { Ok(emit(src, s1, TokenKind::RightParen)) }
    else if c == '{' { Ok(emit(src, s1, TokenKind::LeftBrace)) }
    else if c == '}' { Ok(emit(src, s1, TokenKind::RightBrace)) }
    else if c == '[' { Ok(emit(src, s1, TokenKind::LeftBracket)) }
    else if c == ']' { Ok(emit(src, s1, TokenKind::RightBracket)) }
    else if c == ',' || c == '\u{060C}' { Ok(emit(src, s1, TokenKind::Comma)) }
    else if c == '.' { Ok(emit(src, s1, TokenKind::Dot)) }
    else if c == ';' { Ok(emit(src, s1, TokenKind::Semicolon)) }
    else if c == ':' || c == '\u{FF1A}' { Ok(emit(src, s1, TokenKind::Colon)) }
    else if c == '+' {
        if next_is(src, s1.pos, '+') { Ok(emit(src, step(s1), TokenKind::Plus)) }
        else if next_is(src, s1.pos, '=') { Ok(emit(src, step(s1), TokenKind::Equal)) }
        else { Ok(emit(src, s1, TokenKind::Plus)) }
    }
    else if c == '-' {
        if next_is(src, s1.pos, '>') { Ok(emit(src, step(s1), TokenKind::Arrow)) }
        else { Ok(emit(src, s1, TokenKind::Minus)) }
    }
    else if c == '*' { Ok(emit(src, s1, TokenKind::Star)) }
    else if c == '%' { Ok(emit(src, s1, TokenKind::Percent)) }
    else if c == '=' {
        if next_is(src, s1.pos, '=') { Ok(emit(src, step(s1), TokenKind::EqualEqual)) }
        else { Ok(emit(src, s1, TokenKind::Equal)) }
    }
    else if c == '!' {
        if next_is(src, s1.pos, '=') { Ok(emit(src, step(s1), TokenKind::BangEqual)) }
        else { Ok(emit(src, s1, TokenKind::Bang)) }
    }
    else if c == '<' {
        if next_is(src, s1.pos, '=') { Ok(emit(src, step(s1), TokenKind::LessEqual)) }
        else { Ok(emit(src, s1, TokenKind::Less)) }
    }
    else if c == '>' {
        if next_is(src, s1.pos, '=') { Ok(emit(src, step(s1), TokenKind::GreaterEqual)) }
        else { Ok(emit(src, s1, TokenKind::Greater)) }
    }
    else if c == '&' {
        if next_is(src, s1.pos, '&') { Ok(emit(src, step(s1), TokenKind::AndAnd)) }
        else { Err(lone_operator_message('&', st.line)) }
    }
    else if c == '|' {
        if next_is(src, s1.pos, '|') { Ok(emit(src, step(s1), TokenKind::OrOr)) }
        else { Err(lone_operator_message('|', st.line)) }
    }
    else if c == '/' {
        if next_is(src, s1.pos, '/') { Ok(skip_comment(src, step(s1))) }
        else { Ok(emit(src, s1, TokenKind::Slash)) }
    }
    else if c == ' ' || c == '\r' || c == '\t' || c == '\u{200E}' || c == '\u{200F}'
        || c == '\u{202B}' || c == '\u{202C}' { Ok(s1) }
    else if c == '\n' {
        let s2 = emit(src, LexState { line: st.line + 1, ..s1 }, TokenKind::Newline);
        Ok(LexState { at_line_start: true, ..s2 })
    }
    else if c == '"' { scan_string(src, s1) }
    else if is_digit_char(c) { Ok(scan_number(src, s1)) }
    else if starts_word(c) { Ok(scan_word(src, s1)) }
    else { Err(unsupported_char_message(st.line, c)) }
}

/// Skips the spaces and tabs that begin a line, counting a tab as four;
/// gives the position reached and the width.
pub open spec fn scan_blanks(src: Seq<char>, p: int, width: int) -> (int, int)
    decreases src.len() - p,
{
    if 0 <= p < src.len() && (src[p] == ' ' || src[p] == '\t') {
        scan_blanks(src, p + 1, width + if src[p] == ' ' { 1int } else { 4int })
    } else {
        (p, width)
    }
}

/// The innermost indentation width (zero when the stack is empty).
pub open spec fn top_indent(st: LexState) -> int {
    if st.indents.len() > 0 {
        st.indents.last()
    } else {
        0
    }
}

/// Closes the blocks that are deeper than `width`, one `Dedent` each.
pub open spec fn close_blocks(src: Seq<char>, st: LexState, width: int) -> LexState
    decreases st.indents.len(),
{
    if st.indents.len() > 0 && width < st.indents.last() {
        close_blocks(
            src,
            emit(src, LexState { indents: st.indents.drop_last(), ..st }, TokenKind::Dedent),
            width,
        )
    } else {
        st
    }
}

/// Opens a block (`Indent`) when a line is indented deeper than the
/// innermost block, and closes blocks when it is indented less.
pub open spec fn adjust_indent(src: Seq<char>, st: LexState, width: int) -> LexState {
    if width > top_indent(st) {
        emit(src, LexState { indents: st.indents.push(width), ..st }, TokenKind::Indent)
    } else if width < top_indent(st) {
        close_blocks(src, st, width)
    } else {
        st
    }
}

/// Whether the rest of the line at `p` holds nothing: the end, a line feed
/// or the start of a `//` comment.
pub open spec fn line_is_blank_at(src: Seq<char>, p: int) -> bool {
    p >= src.len() || src[p] == '\n' || (src[p] == '/' && next_is(src, p + 1, '/'))
}

/// One round of the scan loop at position `pos` (inside the source).
pub open spec fn scan_round(src: Seq<char>, st: LexState) -> Result<LexState, Seq<char>> {
    let s0 = LexState { start: st.pos, ..st };
    if s0.at_line_start {
        let (e, width) = scan_blanks(src, s0.pos, 0);
        let s1 = LexState { pos: e, ..s0 };
        if line_is_blank_at(src, e) {
            Ok(LexState { pos: if e < src.len() { e + 1 } else { e }, at_line_start: true, ..s1 })
        } else {
            let s2 = LexState { at_line_start: false, ..adjust_indent(src, s1, width) };
            scan_token(src, LexState { start: s2.pos, ..s2 })
        }
    } else {
        scan_token(src, s0)
    }
}

/// The scan loop, until the end of the source or an error.
pub open spec fn scan_loop(src: Seq<char>, st: LexState) -> Result<LexState, Seq<char>>
    decreases src.len() - st.pos,
{
    if !(0 <= st.pos < src.len()) {
        Ok(st)
    } else {
        match scan_round(src, st) {
            Ok(s1) => if st.pos < s1.pos <= src.len() {
                scan_loop(src, s1)
            } else {
                Ok(s1)
            },
            Err(e) => Err(e),
        }
    }
}

/// Closes every block still open at the end of the source.
pub open spec fn close_all(src: Seq<char>, st: LexState) -> LexState
    decreases st.indents.len(),
{
    if st.indents.len() > 1 {
        close_all(src, emit(src, LexState { indents: st.indents.drop_last(), ..st }, TokenKind::Dedent))
    } else {
        st
    }
}

/// The tokens of a finished scan: the open blocks closed, then `Eof`.
pub open spec fn finish(src: Seq<char>, st: LexState) -> Seq<SpecToken> {
    let s1 = close_all(src, st);
    s1.toks.push(SpecToken { kind: TokenKind::Eof, lexeme: Seq::empty(), line: s1.line })
}

/// What scanning `src` gives: its tokens, or the message of the first error.
pub open spec fn lex(src: Seq<char>) -> Result<Seq<SpecToken>, Seq<char>> {
    match scan_loop(src, initial_state()) {
        Ok(st) => Ok(finish(src, st)),
        Err(e) => Err(e),
    }
}


/// What scanning from a given state gives.
pub open spec fn lex_from(src: Seq<char>, st: LexState) -> Result<Seq<SpecToken>, Seq<char>> {
    match scan_loop(src, st) {
        Ok(s1) => Ok(finish(src, s1)),
        Err(e) => Err(e),
    }
}

// ---------------------------------------------------------------------------
// What every scan keeps
// ---------------------------------------------------------------------------

/// How many tokens of kind `k` a sequence holds.
pub open spec fn count_kind(ts: Seq<SpecToken>, k: TokenKind) -> nat
    decreases ts.len(),
{
    if ts.len() == 0 {
        0
    } else {
        count_kind(ts.drop_last(), k) + if ts.last().kind == k { 1nat } else { 0nat }
    }
}

proof fn lemma_count_push(ts: Seq<SpecToken>, t: SpecToken, k: TokenKind)
    ensures
        count_kind(ts.push(t), k) == count_kind(ts, k) + if t.kind == k { 1nat } else { 0nat },
{
    assert(ts.push(t).drop_last() =~= ts);
}

/// Whether no prefix of `ts` closes more blocks than it opens.
pub open spec fn balanced_prefixes(ts: Seq<SpecToken>) -> bool {
    forall|k: int|
        0 <= k <= ts.len() ==> #[trigger] count_kind(ts.take(k), TokenKind::Dedent) <= count_kind(
            ts.take(k),
            TokenKind::Indent,
        )
}

/// Whether the line numbers of `ts` never go down and stay within `line`.
pub open spec fn lines_ordered(ts: Seq<SpecToken>, line: int) -> bool {
    &&& forall|i: int, j: int| #![trigger ts[i], ts[j]] 0 <= i <= j < ts.len() ==> ts[i].line <= ts[j].line
    &&& forall|i: int| 0 <= i < ts.len() ==> #[trigger] ts[i].line <= line
}

/// Adding a token on the current line keeps the prefixes balanced and the
/// lines in order, provided a `Dedent` closes a block still open.
proof fn lemma_push_keeps(ts: Seq<SpecToken>, t: SpecToken, line: int)
    requires
        balanced_prefixes(ts),
        lines_ordered(ts, line),
        t.line == line,
        t.kind == TokenKind::Dedent ==> count_kind(ts, TokenKind::Dedent) < count_kind(
            ts,
            TokenKind::Indent,
        ),
    ensures
        balanced_prefixes(ts.push(t)),
        lines_ordered(ts.push(t), line),
        count_kind(ts.push(t), TokenKind::Indent) == count_kind(ts, TokenKind::Indent) + if t.kind
            == TokenKind::Indent {
            1nat
        } else {
            0nat
        },
        count_kind(ts.push(t), TokenKind::Dedent) == count_kind(ts, TokenKind::Dedent) + if t.kind
            == TokenKind::Dedent {
            1nat
        } else {
            0nat
        },
{
    lemma_count_push(ts, t, TokenKind::Indent);
    lemma_count_push(ts, t, TokenKind::Dedent);
    let u = ts.push(t);
    assert(ts.take(ts.len() as int) =~= ts);
    assert(count_kind(ts.take(ts.len() as int), TokenKind::Dedent) <= count_kind(
        ts.take(ts.len() as int),
        TokenKind::Indent,
    ));
    assert forall|k: int| 0 <= k <= u.len() implies #[trigger] count_kind(
        u.take(k),
        TokenKind::Dedent,
    ) <= count_kind(u.take(k), TokenKind::Indent) by {
        if k <= ts.len() {
            assert(u.take(k) =~= ts.take(k));
        } else {
            assert(u.take(k) =~= u);
        }
    }
    assert forall|i: int, j: int| 0 <= i <= j < u.len() implies #[trigger] u[i].line <= #[trigger] u[j].line by {
        if j < ts.len() {
            assert(u[i] == ts[i] && u[j] == ts[j]);
        } else if i < ts.len() {
            assert(u[i] == ts[i]);
        }
    }
    assert forall|i: int| 0 <= i < u.len() implies #[trigger] u[i].line <= line by {
        if i < ts.len() {
            assert(u[i] == ts[i]);
        }
    }
}

/// Whether a kind is one of the layout kinds or the end marker.
pub open spec fn is_structural(k: TokenKind) -> bool {
    k == TokenKind::Indent || k == TokenKind::Dedent || k == TokenKind::Eof
}

/// What holds of every state a scan passes through: the outermost
/// indentation is zero, each open block is matched by an `Indent` not yet
/// closed by a `Dedent`, and no `Eof` has been produced.
pub open spec fn lex_inv(st: LexState) -> bool {
    &&& st.indents.len() >= 1
    &&& st.indents[0] == 0
    &&& count_kind(st.toks, TokenKind::Indent) == count_kind(st.toks, TokenKind::Dedent)
        + st.indents.len() - 1
    &&& forall|i: int| 0 <= i < st.toks.len() ==> #[trigger] st.toks[i].kind != TokenKind::Eof
    &&& balanced_prefixes(st.toks)
    &&& lines_ordered(st.toks, st.line)
}

proof fn lemma_emit_plain(src: Seq<char>, st: LexState, kind: TokenKind)
    requires
        lex_inv(st),
        !is_structural(kind),
    ensures
        lex_inv(emit(src, st, kind)),
{
    let t = SpecToken { kind, lexeme: src.subrange(st.start, st.pos), line: st.line };
    lemma_push_keeps(st.toks, t, st.line);
}

proof fn lemma_skip_comment(src: Seq<char>, st: LexState)
    requires
        lex_inv(st),
    ensures
        lex_inv(skip_comment(src, st)),
    decreases src.len() - st.pos,
{
    if 0 <= st.pos < src.len() && src[st.pos] != '\n' {
        lemma_skip_comment(src, step(st));
    }
}

proof fn lemma_scan_string(src: Seq<char>, st: LexState)
    requires
        lex_inv(st),
    ensures
        scan_string(src, st) matches Ok(s1) ==> lex_inv(s1),
    decreases src.len() - st.pos,
{
    if !(0 <= st.pos < src.len()) {
    } else if src[st.pos] == '"' {
        let s1 = step(st);
        let t = SpecToken {
            kind: TokenKind::String,
            lexeme: src.subrange(st.start + 1, s1.pos - 1),
            line: s1.line,
        };
        lemma_push_keeps(s1.toks, t, s1.line);
    } else {
        let s1 = if src[st.pos] == '\n' { LexState { line: st.line + 1, ..st } } else { st };
        lemma_scan_string(src, step(s1));
    }
}

proof fn lemma_skip_digits(src: Seq<char>, st: LexState)
    ensures
        skip_digits(src, st).toks == st.toks,
        skip_digits(src, st).indents == st.indents,
        skip_digits(src, st).line == st.line,
    decreases src.len() - st.pos,
{
    if 0 <= st.pos < src.len() && is_digit_char(src[st.pos]) {
        lemma_skip_digits(src, step(st));
    }
}

proof fn lemma_skip_word(src: Seq<char>, st: LexState)
    ensures
        skip_word(src, st).toks == st.toks,
        skip_word(src, st).indents == st.indents,
        skip_word(src, st).line == st.line,
    decreases src.len() - st.pos,
{
    if 0 <= st.pos < src.len() && continues_word(src[st.pos]) {
        lemma_skip_word(src, step(st));
    }
}

proof fn lemma_scan_token(src: Seq<char>, st: LexState)
    requires
        lex_inv(st),
        0 <= st.pos < src.len(),
    ensures
        scan_token(src, st) matches Ok(s1) ==> lex_inv(s1),
{
    let c = src[st.pos];
    let s1 = step(st);
    let s2 = step(s1);
    lemma_emit_plain(src, s1, TokenKind::LeftParen);
    lemma_emit_plain(src, s1, TokenKind::RightParen);
    lemma_emit_plain(src, s1, TokenKind::LeftBrace);
    lemma_emit_plain(src, s1, TokenKind::RightBrace);
    lemma_emit_plain(src, s1, TokenKind::LeftBracket);
    lemma_emit_plain(src, s1, TokenKind::RightBracket);
    lemma_emit_plain(src, s1, TokenKind::Comma);
    lemma_emit_plain(src, s1, TokenKind::Dot);
    lemma_emit_plain(src, s1, TokenKind::Semicolon);
    lemma_emit_plain(src, s1, TokenKind::Colon);
    lemma_emit_plain(src, s1, TokenKind::Plus);
    lemma_emit_plain(src, s2, TokenKind::Plus);
    lemma_emit_plain(src, s2, TokenKind::Equal);
    lemma_emit_plain(src, s2, TokenKind::Arrow);
    lemma_emit_plain(src, s1, TokenKind::Minus);
    lemma_emit_plain(src, s1, TokenKind::Star);
    lemma_emit_plain(src, s1, TokenKind::Percent);
    lemma_emit_plain(src, s2, TokenKind::EqualEqual);
    lemma_emit_plain(src, s1, TokenKind::Equal);
    lemma_emit_plain(src, s2, TokenKind::BangEqual);
    lemma_emit_plain(src, s1, TokenKind::Bang);
    lemma_emit_plain(src, s2, TokenKind::LessEqual);
    lemma_emit_plain(src, s1, TokenKind::Less);
    lemma_emit_plain(src, s2, TokenKind::GreaterEqual);
    lemma_emit_plain(src, s1, TokenKind::Greater);
    lemma_emit_plain(src, s2, TokenKind::AndAnd);
    lemma_emit_plain(src, s2, TokenKind::OrOr);
    lemma_emit_plain(src, s1, TokenKind::Slash);
    lemma_skip_comment(src, s2);
    lemma_emit_plain(src, LexState { line: st.line + 1, ..s1 }, TokenKind::Newline);
    lemma_scan_string(src, s1);
    let d = skip_digits(src, s1);
    lemma_skip_digits(src, s1);
    lemma_skip_digits(src, step(d));
    let d2 = if peek_char(src, d.pos) == '.' && is_digit_char(peek_char(src, d.pos + 1)) {
        skip_digits(src, step(d))
    } else {
        d
    };
    lemma_emit_plain(src, d2, TokenKind::Number);
    let w = skip_word(src, s1);
    lemma_skip_word(src, s1);
    let kind = match keyword_kind(src.subrange(w.start, w.pos)) {
        Some(k) => k,
        None => TokenKind::Identifier,
    };
    lemma_emit_plain(src, w, kind);
}

proof fn lemma_close_blocks(src: Seq<char>, st: LexState, width: int)
    requires
        lex_inv(st),
        width >= 0,
    ensures
        lex_inv(close_blocks(src, st, width)),
        close_blocks(src, st, width).pos == st.pos,
    decreases st.indents.len(),
{
    if st.indents.len() > 0 && width < st.indents.last() {
        let s1 = LexState { indents: st.indents.drop_last(), ..st };
        let t = SpecToken { kind: TokenKind::Dedent, lexeme: src.subrange(s1.start, s1.pos), line: s1.line };
        lemma_push_keeps(s1.toks, t, s1.line);
        lemma_close_blocks(src, emit(src, s1, TokenKind::Dedent), width);
    }
}

proof fn lemma_scan_blanks(src: Seq<char>, p: int, width: int)
    requires
        width >= 0,
    ensures
        scan_blanks(src, p, width).1 >= 0,
        scan_blanks(src, p, width).0 >= p,
    decreases src.len() - p,
{
    if 0 <= p < src.len() && (src[p] == ' ' || src[p] == '\t') {
        lemma_scan_blanks(src, p + 1, width + if src[p] == ' ' { 1int } else { 4int });
    }
}

proof fn lemma_scan_round(src: Seq<char>, st: LexState)
    requires
        lex_inv(st),
        0 <= st.pos < src.len(),
    ensures
        scan_round(src, st) matches Ok(s1) ==> lex_inv(s1),
{
    let s0 = LexState { start: st.pos, ..st };
    if s0.at_line_start {
        let (e, width) = scan_blanks(src, s0.pos, 0);
        lemma_scan_blanks(src, s0.pos, 0);
        let s1 = LexState { pos: e, ..s0 };
        if !line_is_blank_at(src, e) {
            if width > top_indent(s1) {
                let s2 = LexState { indents: s1.indents.push(width), ..s1 };
                let t = SpecToken { kind: TokenKind::Indent, lexeme: src.subrange(s2.start, s2.pos), line: s2.line };
                lemma_push_keeps(s2.toks, t, s2.line);
            } else if width < top_indent(s1) {
                lemma_close_blocks(src, s1, width);
            }
            let s2 = LexState { at_line_start: false, ..adjust_indent(src, s1, width) };
            lemma_scan_token(src, LexState { start: s2.pos, ..s2 });
        }
    } else {
        lemma_scan_token(src, s0);
    }
}

proof fn lemma_scan_loop(src: Seq<char>, st: LexState)
    requires
        lex_inv(st),
    ensures
        scan_loop(src, st) matches Ok(s1) ==> lex_inv(s1),
    decreases src.len() - st.pos,
{
    if 0 <= st.pos < src.len() {
        lemma_scan_round(src, st);
        if let Ok(s1) = scan_round(src, st) {
            if st.pos < s1.pos <= src.len() {
                lemma_scan_loop(src, s1);
            }
        }
    }
}

proof fn lemma_close_all(src: Seq<char>, st: LexState)
    requires
        lex_inv(st),
    ensures
        lex_inv(close_all(src, st)),
        close_all(src, st).indents.len() == 1,
    decreases st.indents.len(),
{
    if st.indents.len() > 1 {
        let s1 = LexState { indents: st.indents.drop_last(), ..st };
        let t = SpecToken { kind: TokenKind::Dedent, lexeme: src.subrange(s1.start, s1.pos), line: s1.line };
        lemma_push_keeps(s1.toks, t, s1.line);
        lemma_close_all(src, emit(src, s1, TokenKind::Dedent));
    }
}

/// Every successful scan ends with exactly one `Eof`, its last token, and
/// closes every block it opens: there are as many `Dedent` tokens as
/// `Indent` tokens, and no stretch from the start closes more blocks than it
/// has opened. The line numbers of the tokens never go down.
pub proof fn lemma_lex_well_formed(src: Seq<char>)
    ensures
        lex(src) matches Ok(ts) ==> {
            &&& ts.len() >= 1
            &&& ts.last().kind == TokenKind::Eof
            &&& forall|i: int| 0 <= i < ts.len() - 1 ==> #[trigger] ts[i].kind != TokenKind::Eof
            &&& count_kind(ts, TokenKind::Indent) == count_kind(ts, TokenKind::Dedent)
            &&& balanced_prefixes(ts)
            &&& forall|i: int, j: int|
                #![trigger ts[i], ts[j]]
                0 <= i <= j < ts.len() ==> ts[i].line <= ts[j].line
        },
{
    let st = initial_state();
    assert(st.toks =~= Seq::<SpecToken>::empty());
    lemma_scan_loop(src, st);
    if let Ok(s1) = scan_loop(src, st) {
        lemma_close_all(src, s1);
        let s2 = close_all(src, s1);
        let t = SpecToken { kind: TokenKind::Eof, lexeme: Seq::empty(), line: s2.line };
        lemma_push_keeps(s2.toks, t, s2.line);
    }
}

/// A run of digits from `st.pos` up to `end` is skipped whole.
proof fn lemma_skip_digits_to(src: Seq<char>, st: LexState, end: int)
    requires
        0 <= st.pos <= end <= src.len(),
        forall|k: int| st.pos <= k < end ==> is_digit_char(#[trigger] src[k]),
        end < src.len() ==> !is_digit_char(src[end]),
    ensures
        skip_digits(src, st) == (LexState { pos: end, ..st }),
    decreases end - st.pos,
{
    if st.pos < end {
        lemma_skip_digits_to(src, step(st), end);
    }
}

/// A decimal number is one token: digits, a dot and digits lex as a single
/// `Number` whose text is all of them, then the end marker.
pub proof fn lemma_decimal_is_one_token(d1: Seq<char>, d2: Seq<char>)
    requires
        d1.len() > 0,
        d2.len() > 0,
        forall|k: int| 0 <= k < d1.len() ==> is_digit_char(#[trigger] d1[k]),
        forall|k: int| 0 <= k < d2.len() ==> is_digit_char(#[trigger] d2[k]),
    ensures
        lex(d1 + seq!['.'] + d2) == Ok::<Seq<SpecToken>, Seq<char>>(
            seq![
                SpecToken { kind: TokenKind::Number, lexeme: d1 + seq!['.'] + d2, line: 1 },
                SpecToken { kind: TokenKind::Eof, lexeme: Seq::empty(), line: 1 },
            ],
        ),
{
    let src = d1 + seq!['.'] + d2;
    let n1 = d1.len() as int;
    let len = src.len() as int;
    let st0 = initial_state();
    assert forall|k: int| 0 <= k < n1 implies is_digit_char(#[trigger] src[k]) by {
        assert(src[k] == d1[k]);
    }
    assert forall|k: int| n1 + 1 <= k < len implies is_digit_char(#[trigger] src[k]) by {
        assert(src[k] == d2[k - n1 - 1]);
    }
    assert(src[n1] == '.');
    assert(is_digit_char(src[0]));
    let s0 = LexState { start: 0, ..st0 };
    assert(scan_blanks(src, 0, 0) == (0int, 0int));
    assert(!line_is_blank_at(src, 0));
    assert(top_indent(s0) == 0);
    let s2 = LexState { at_line_start: false, ..s0 };
    assert(adjust_indent(src, s0, 0) == s0);
    let a = step(s2);
    lemma_skip_digits_to(src, a, n1);
    let b = LexState { pos: n1, ..a };
    assert(peek_char(src, n1) == '.');
    assert(peek_char(src, n1 + 1) == d2[0]);
    lemma_skip_digits_to(src, step(b), len);
    let c = LexState { pos: len, ..a };
    assert(scan_number(src, a) == emit(src, c, TokenKind::Number));
    let tok = SpecToken { kind: TokenKind::Number, lexeme: src.subrange(0, len), line: 1 };
    assert(src.subrange(0, len) =~= src);
    let fin = emit(src, c, TokenKind::Number);
    assert(scan_token(src, LexState { start: s2.pos, ..s2 }) == Ok::<LexState, Seq<char>>(fin));
    assert(scan_round(src, st0) == Ok::<LexState, Seq<char>>(fin));
    assert(scan_loop(src, fin) == Ok::<LexState, Seq<char>>(fin));
    assert(scan_loop(src, st0) == Ok::<LexState, Seq<char>>(fin));
    assert(close_all(src, fin) == fin);
    assert(fin.toks =~= seq![tok]);
    assert(fin.line == 1);
    let eof = SpecToken { kind: TokenKind::Eof, lexeme: Seq::empty(), line: 1 };
    assert(finish(src, fin) =~= seq![tok, eof]);
    assert(lex(src) == Ok::<Seq<SpecToken>, Seq<char>>(seq![tok, eof]));
}

// ---------------------------------------------------------------------------
// The lexer
// ---------------------------------------------------------------------------

/// Turns source text into tokens, tracking indentation: a line indented
/// deeper than the block it is in opens a block (`Indent`), a line indented
/// less closes blocks (`Dedent`), and the end of the source closes them all.
pub struct Lexer {
    source: Vec<char>,
    tokens: Vec<Token>,
    start: usize,
    current: usize,
    line: usize,
    indent_stack: Vec<usize>,
    at_line_start: bool,
}

impl Lexer {
    /// The source text being scanned.
    pub closed spec fn source(&self) -> Seq<char> {
        self.source@
    }

    /// The scan state.
    pub closed spec fn state(&self) -> LexState {
        LexState {
            pos: self.current as int,
            start: self.start as int,
            line: self.line as int,
            at_line_start: self.at_line_start,
            indents: self.indent_stack@.map_values(|w: usize| w as int),
            toks: tokens_view(self.tokens@),
        }
    }

    /// The bounds that keep the counters of a scan within `usize`.
    pub closed spec fn wf(&self) -> bool {
        &&& self.source@.len() <= usize::MAX / 4
        &&& self.start <= self.current <= self.source@.len()
        &&& 1 <= self.line <= self.current + 1
        &&& forall|i: int|
            0 <= i < self.indent_stack@.len() ==> #[trigger] self.indent_stack@[i] <= 4
                * self.source@.len()
    }

    /// A lexer at the beginning of `source`.
    pub fn new(source: &str) -> (l: Self)
        requires
            source@.len() <= usize::MAX / 4,
        ensures
            l.wf(),
            l.source() == source@,
            l.state() == initial_state(),
    {
        let l = Lexer {
            source: chars_of(source),
            tokens: Vec::new(),
            start: 0,
            current: 0,
            line: 1,
            indent_stack: vec![0],
            at_line_start: true,
        };
        assert(l.state().indents =~= seq![0int]);
        assert(l.state().toks =~= Seq::<SpecToken>::empty());
        l
    }

    fn is_at_end(&self) -> (r: bool)
        requires
            self.wf(),
        ensures
            r == (self.current >= self.source@.len()),
    {
        self.current >= self.source.len()
    }

    fn peek(&self) -> (c: char)
        requires
            self.wf(),
        ensures
            c == peek_char(self.source@, self.current as int),
    {
        if self.is_at_end() {
            return '\0';
        }
        self.source[self.current]
    }

    fn peek_next(&self) -> (c: char)
        requires
            self.wf(),
        ensures
            c == peek_char(self.source@, self.current + 1),
    {
        if self.current + 1 >= self.source.len() {
            return '\0';
        }
        self.source[self.current + 1]
    }

    fn advance(&mut self) -> (c: char)
        requires
            old(self).wf(),
            old(self).current < old(self).source@.len(),
        ensures
            final(self).wf(),
            final(self).source@ == old(self).source@,
            final(self).state() == step(old(self).state()),
            c == old(self).source@[old(self).current as int],
    {
        let c = self.source[self.current];
        self.current = self.current + 1;
        c
    }

    fn match_char(&mut self, expected: char) -> (r: bool)
        requires
            old(self).wf(),
        ensures
            final(self).wf(),
            final(self).source@ == old(self).source@,
            r == next_is(old(self).source@, old(self).current as int, expected),
            final(self).state() == if r {
                step(old(self).state())
            } else {
                old(self).state()
            },
    {
        if self.is_at_end() {
            return false;
        }
        if self.source[self.current] != expected {
            return false;
        }
        self.current = self.current + 1;
        true
    }

    fn add_token(&mut self, kind: TokenKind)
        requires
            old(self).wf(),
        ensures
            final(self).wf(),
            final(self).source@ == old(self).source@,
            final(self).state() == emit(old(self).source@, old(self).state(), kind),
    {
        let lexeme = string_of(&self.source, self.start, self.current);
        let t = Token { kind, lexeme, line: self.line };
        let ghost old_tokens = self.tokens@;
        self.tokens.push(t);
        assert(tokens_view(self.tokens@) =~= tokens_view(old_tokens).push(t@));
    }

    fn add_token_with_lexeme(&mut self, kind: TokenKind, lexeme: String)
        requires
            old(self).wf(),
        ensures
            final(self).wf(),
            final(self).source@ == old(self).source@,
            final(self).state() == emit_text(old(self).state(), kind, lexeme@),
    {
        let t = Token { kind, lexeme, line: self.line };
        let ghost old_tokens = self.tokens@;
        self.tokens.push(t);
        assert(tokens_view(self.tokens@) =~= tokens_view(old_tokens).push(t@));
    }

    fn skip_comment(&mut self)
        requires
            old(self).wf(),
        ensures
            final(self).wf(),
            final(self).source@ == old(self).source@,
            final(self).state() == skip_comment(old(self).source@, old(self).state()),
            final(self).current >= old(self).current,
    {
        while self.peek() != '\n' && !self.is_at_end()
            invariant
                self.wf(),
                self.source@ == old(self).source@,
                self.current >= old(self).current,
                skip_comment(self.source@, self.state()) == skip_comment(
                    old(self).source@,
                    old(self).state(),
                ),
            decreases self.source@.len() - self.current,
        {
            self.advance();
        }
    }

    fn string_token(&mut self) -> (r: Result<(), String>)
        requires
            old(self).wf(),
            old(self).start < old(self).current,
        ensures
            final(self).wf(),
            final(self).source@ == old(self).source@,
            match r {
                Ok(()) => scan_string(old(self).source@, old(self).state()) == Ok::<
                    LexState,
                    Seq<char>,
                >(final(self).state()),
                Err(e) => scan_string(old(self).source@, old(self).state()) == Err::<
                    LexState,
                    Seq<char>,
                >(e@),
            },
            r is Ok ==> final(self).current > old(self).current,
    {
        while self.peek() != '"' && !self.is_at_end()
            invariant
                self.wf(),
                self.source@ == old(self).source@,
                self.start == old(self).start,
                self.current >= old(self).current,
                scan_string(self.source@, self.state()) == scan_string(
                    old(self).source@,
                    old(self).state(),
                ),
            decreases self.source@.len() - self.current,
        {
            if self.peek() == '\n' {
                self.advance();
                self.line = self.line + 1;
            } else {
                self.advance();
            }
        }
        if self.is_at_end() {
            return Err(string_from("سلسلة نصية غير مغلقة."));
        }
        self.advance();
        let value = string_of(&self.source, self.start + 1, self.current - 1);
        self.add_token_with_lexeme(TokenKind::String, value);
        Ok(())
    }

    fn skip_digits(&mut self)
        requires
            old(self).wf(),
        ensures
            final(self).wf(),
            final(self).source@ == old(self).source@,
            final(self).state() == skip_digits(old(self).source@, old(self).state()),
            final(self).current >= old(self).current,
    {
        while self.is_digit(self.peek())
            invariant
                self.wf(),
                self.source@ == old(self).source@,
                self.current >= old(self).current,
                skip_digits(self.source@, self.state()) == skip_digits(
                    old(self).source@,
                    old(self).state(),
                ),
            decreases self.source@.len() - self.current,
        {
            self.advance();
        }
    }

    fn is_digit(&self, c: char) -> (r: bool)
        ensures
            r == is_digit_char(c),
    {
        ('0' <= c && c <= '9') || ('\u{0660}' <= c && c <= '\u{0669}')
    }

    fn number_token(&mut self)
        requires
            old(self).wf(),
        ensures
            final(self).wf(),
            final(self).source@ == old(self).source@,
            final(self).state() == scan_number(old(self).source@, old(self).state()),
            final(self).current >= old(self).current,
    {
        self.skip_digits();
        if self.peek() == '.' && self.is_digit(self.peek_next()) {
            self.advance();
            self.skip_digits();
        }
        self.add_token(TokenKind::Number);
    }

    fn identifier_token(&mut self)
        requires
            old(self).wf(),
        ensures
            final(self).wf(),
            final(self).source@ == old(self).source@,
            final(self).state() == scan_word(old(self).source@, old(self).state()),
            final(self).current >= old(self).current,
    {
        while !self.is_at_end() && self.continues_word(self.peek())
            invariant
                self.wf(),
                self.source@ == old(self).source@,
                self.current >= old(self).current,
                skip_word(self.source@, self.state()) == skip_word(
                    old(self).source@,
                    old(self).state(),
                ),
            decreases self.source@.len() - self.current,
        {
            self.advance();
        }
        let kind = match self.keyword(self.start, self.current) {
            Some(k) => k,
            None => TokenKind::Identifier,
        };
        self.add_token(kind);
    }

    fn continues_word(&self, c: char) -> (r: bool)
        ensures
            r == continues_word(c),
    {
        is_alphanumeric(c) || c == '_' || ('\u{0627}' <= c && c <= '\u{064A}')
    }

    fn starts_word(&self, c: char) -> (r: bool)
        ensures
            r == starts_word(c),
    {
        is_alphabetic(c) || c == '_' || ('\u{0627}' <= c && c <= '\u{064A}')
    }

    fn lone_operator_error(&self, op: char) -> (m: String)
        ensures
            m@ == lone_operator_message(op, self.line as int),
    {
        let mut m = string_from("Error: single ");
        push_char(&mut m, op);
        append_str(&mut m, " at line ");
        append_decimal(&mut m, self.line as u64);
        assert(m@ =~= lone_operator_message(op, self.line as int));
        m
    }

    fn unsupported_char_error(&self, c: char) -> (m: String)
        ensures
            m@ == unsupported_char_message(self.line as int, c),
    {
        let mut m = string_from("رموز غير مدعومة في السطر ");
        append_decimal(&mut m, self.line as u64);
        append_str(&mut m, ": '");
        push_char(&mut m, c);
        append_str(&mut m, "'");
        assert(m@ =~= unsupported_char_message(self.line as int, c));
        m
    }

    fn scan_token(&mut self) -> (r: Result<(), String>)
        requires
            old(self).wf(),
            old(self).current < old(self).source@.len(),
        ensures
            final(self).wf(),
            final(self).source@ == old(self).source@,
            match r {
                Ok(()) => scan_token(old(self).source@, old(self).state()) == Ok::<
                    LexState,
                    Seq<char>,
                >(final(self).state()),
                Err(e) => scan_token(old(self).source@, old(self).state()) == Err::<
                    LexState,
                    Seq<char>,
                >(e@),
            },
            r is Ok ==> final(self).current > old(self).current,
    {
        let ghost src = self.source@;
        let ghost st = self.state();
        let c = self.advance();
        if c == '(' { self.add_token(TokenKind::LeftParen); }
        else if c == ')' { self.add_token(TokenKind::RightParen); }
        else if c == '{' { self.add_token(TokenKind::LeftBrace); }
        else if c == '}' { self.add_token(TokenKind::RightBrace); }
        else if c == '[' { self.add_token(TokenKind::LeftBracket); }
        else if c == ']' { self.add_token(TokenKind::RightBracket); }
        else if c == ',' || c == '\u{060C}' { self.add_token(TokenKind::Comma); }
        else if c == '.' { self.add_token(TokenKind::Dot); }
        else if c == ';' { self.add_token(TokenKind::Semicolon); }
        else if c == ':' || c == '\u{FF1A}' { self.add_token(TokenKind::Colon); }
        else if c == '+' {
            let kind = if self.match_char('+') {
                TokenKind::Plus
            } else if self.match_char('=') {
                TokenKind::Equal
            } else {
                TokenKind::Plus
            };
            self.add_token(kind);
        }
        else if c == '-' {
            let kind = if self.match_char('>') { TokenKind::Arrow } else { TokenKind::Minus };
            self.add_token(kind);
        }
        else if c == '*' { self.add_token(TokenKind::Star); }
        else if c == '%' { self.add_token(TokenKind::Percent); }
        else if c == '=' {
            let kind = if self.match_char('=') { TokenKind::EqualEqual } else { TokenKind::Equal };
            self.add_token(kind);
        }
        else if c == '!' {
            let kind = if self.match_char('=') { TokenKind::BangEqual } else { TokenKind::Bang };
            self.add_token(kind);
        }
        else if c == '<' {
            let kind = if self.match_char('=') { TokenKind::LessEqual } else { TokenKind::Less };
            self.add_token(kind);
        }
        else if c == '>' {
            let kind = if self.match_char('=') {
                TokenKind::GreaterEqual
            } else {
                TokenKind::Greater
            };
            self.add_token(kind);
        }
        else if c == '&' {
            if self.match_char('&') {
                self.add_token(TokenKind::AndAnd);
            } else {
                return Err(self.lone_operator_error('&'));
            }
        }
        else if c == '|' {
            if self.match_char('|') {
                self.add_token(TokenKind::OrOr);
            } else {
                return Err(self.lone_operator_error('|'));
            }
        }
        else if c == '/' {
            if self.match_char('/') {
                self.skip_comment();
            } else {
                self.add_token(TokenKind::Slash);
            }
        }
        else if c == ' ' || c == '\r' || c == '\t' || c == '\u{200E}' || c == '\u{200F}'
            || c == '\u{202B}' || c == '\u{202C}' {
        }
        else if c == '\n' {
            self.line = self.line + 1;
            self.add_token(TokenKind::Newline);
            self.at_line_start = true;
        }
        else if c == '"' {
            return self.string_token();
        }
        else if self.is_digit(c) {
            self.number_token();
        }
        else if self.starts_word(c) {
            self.identifier_token();
        }
        else {
            return Err(self.unsupported_char_error(c));
        }
        Ok(())
    }

    /// One round of the scan loop: the indentation of a new line, then a token.
    fn scan_round(&mut self) -> (r: Result<(), String>)
        requires
            old(self).wf(),
            old(self).current < old(self).source@.len(),
        ensures
            final(self).wf(),
            final(self).source@ == old(self).source@,
            match r {
                Ok(()) => scan_round(old(self).source@, old(self).state()) == Ok::<
                    LexState,
                    Seq<char>,
                >(final(self).state()),
                Err(e) => scan_round(old(self).source@, old(self).state()) == Err::<
                    LexState,
                    Seq<char>,
                >(e@),
            },
            r is Ok ==> final(self).current > old(self).current,
    {
        let ghost src = self.source@;
        let ghost st = self.state();
        self.start = self.current;
        if self.at_line_start {
            let ghost s0 = self.state();
            let mut spaces: usize = 0;
            while !self.is_at_end() && (self.peek() == ' ' || self.peek() == '\t')
                invariant
                    self.wf(),
                    self.source@ == src,
                    self.start == old(self).current,
                    self.current >= self.start,
                    spaces <= 4 * (self.current - self.start),
                    self.state() == (LexState { pos: self.current as int, ..s0 }),
                    scan_blanks(src, self.current as int, spaces as int) == scan_blanks(
                        src,
                        s0.pos,
                        0,
                    ),
                decreases self.source@.len() - self.current,
            {
                if self.peek() == ' ' {
                    spaces = spaces + 1;
                } else {
                    spaces = spaces + 4;
                }
                self.advance();
            }
            if self.is_at_end() || self.peek() == '\n' || (self.peek() == '/' && self.peek_next()
                == '/') {
                self.at_line_start = true;
                if !self.is_at_end() {
                    self.advance();
                }
                return Ok(());
            }
            let ghost s1 = self.state();
            let current_indent = if self.indent_stack.len() > 0 {
                self.indent_stack[self.indent_stack.len() - 1]
            } else {
                0
            };
            assert(current_indent == top_indent(s1));
            if spaces > current_indent {
                let ghost old_stack = self.indent_stack@;
                self.indent_stack.push(spaces);
                assert(self.indent_stack@.map_values(|w: usize| w as int) =~= old_stack.map_values(
                    |w: usize| w as int,
                ).push(spaces as int));
                self.add_token(TokenKind::Indent);
            } else if spaces < current_indent {
                self.close_blocks(spaces);
            }
            self.at_line_start = false;
        }
        if !self.is_at_end() {
            self.start = self.current;
            self.scan_token()
        } else {
            Ok(())
        }
    }

    /// Closes the blocks deeper than `width`, one `Dedent` each.
    fn close_blocks(&mut self, width: usize)
        requires
            old(self).wf(),
        ensures
            final(self).wf(),
            final(self).source@ == old(self).source@,
            final(self).current == old(self).current,
            final(self).state() == close_blocks(old(self).source@, old(self).state(), width as int),
    {
        while self.indent_stack.len() > 0 && width < self.indent_stack[self.indent_stack.len() - 1]
            invariant
                self.wf(),
                self.source@ == old(self).source@,
                self.current == old(self).current,
                close_blocks(self.source@, self.state(), width as int) == close_blocks(
                    old(self).source@,
                    old(self).state(),
                    width as int,
                ),
            decreases self.indent_stack@.len(),
        {
            let ghost old_stack = self.indent_stack@;
            self.indent_stack.pop();
            assert(self.indent_stack@.map_values(|w: usize| w as int) =~= old_stack.map_values(
                |w: usize| w as int,
            ).drop_last());
            self.add_token(TokenKind::Dedent);
        }
    }

    /// Scans the whole source: its tokens, ending with `Eof`, or the first
    /// error met.
    pub fn scan_tokens(self) -> (r: Result<Vec<Token>, String>)
        requires
            self.wf(),
        ensures
            match r {
                Ok(ts) => lex_from(self.source(), self.state()) == Ok::<
                    Seq<SpecToken>,
                    Seq<char>,
                >(tokens_view(ts@)),
                Err(e) => lex_from(self.source(), self.state()) == Err::<
                    Seq<SpecToken>,
                    Seq<char>,
                >(e@),
            },
    {
        let mut lexer = self;
        lexer.scan_all()
    }

    fn scan_all(&mut self) -> (r: Result<Vec<Token>, String>)
        requires
            old(self).wf(),
        ensures
            match r {
                Ok(ts) => lex_from(old(self).source(), old(self).state()) == Ok::<
                    Seq<SpecToken>,
                    Seq<char>,
                >(tokens_view(ts@)),
                Err(e) => lex_from(old(self).source(), old(self).state()) == Err::<
                    Seq<SpecToken>,
                    Seq<char>,
                >(e@),
            },
    {
        let ghost src = self.source@;
        let ghost st0 = self.state();
        while !self.is_at_end()
            invariant
                self.wf(),
                self.source@ == src,
                scan_loop(src, self.state()) == scan_loop(src, st0),
                old(self).source@ == src,
                old(self).state() == st0,
            decreases self.source@.len() - self.current,
        {
            let ghost before = self.state();
            match self.scan_round() {
                Ok(()) => {},
                Err(e) => {
                    assert(scan_loop(src, before) == Err::<LexState, Seq<char>>(e@));
                    assert(scan_loop(src, st0) == Err::<LexState, Seq<char>>(e@));
                    assert(lex_from(src, st0) == Err::<Seq<SpecToken>, Seq<char>>(e@));
                    return Err(e);
                },
            }
        }
        let ghost s_end = self.state();
        while self.indent_stack.len() > 1
            invariant
                self.wf(),
                self.source@ == src,
                close_all(src, self.state()) == close_all(src, s_end),
            decreases self.indent_stack@.len(),
        {
            let ghost old_stack = self.indent_stack@;
            self.indent_stack.pop();
            assert(self.indent_stack@.map_values(|w: usize| w as int) =~= old_stack.map_values(
                |w: usize| w as int,
            ).drop_last());
            self.add_token(TokenKind::Dedent);
        }
        let ghost old_tokens = self.tokens@;
        let eof = Token { kind: TokenKind::Eof, lexeme: String::new(), line: self.line };
        self.tokens.push(eof);
        assert(tokens_view(self.tokens@) =~= tokens_view(old_tokens).push(eof@));
        let mut out: Vec<Token> = Vec::new();
        std::mem::swap(&mut out, &mut self.tokens);
        Ok(out)
    }

    /// The keyword spelled by `source[lo..hi]`, if any.
    fn keyword(&self, lo: usize, hi: usize) -> (r: Option<TokenKind>)
        requires
            lo <= hi <= self.source@.len(),
        ensures
            r == keyword_kind(self.source@.subrange(lo as int, hi as int)),
    {
        let v = &self.source;
        if segment_is(v, lo, hi, "let") { Some(TokenKind::Let) }
        else if segment_is(v, lo, hi, "const") { Some(TokenKind::Const) }
        else if segment_is(v, lo, hi, "var") { Some(TokenKind::Var) }
        else if segment_is(v, lo, hi, "if") { Some(TokenKind::If) }
        else if segment_is(v, lo, hi, "else") { Some(TokenKind::Else) }
        else if segment_is(v, lo, hi, "while") { Some(TokenKind::While) }
        else if segment_is(v, lo, hi, "print") { Some(TokenKind::Print) }
        else if segment_is(v, lo, hi, "true") { Some(TokenKind::True) }
        else if segment_is(v, lo, hi, "false") { Some(TokenKind::False) }
        else if segment_is(v, lo, hi, "fn") { Some(TokenKind::Function) }
        else if segment_is(v, lo, hi, "return") { Some(TokenKind::Return) }
        else if segment_is(v, lo, hi, "دع") { Some(TokenKind::Let) }
        else if segment_is(v, lo, hi, "ثابت") { Some(TokenKind::Const) }
        else if segment_is(v, lo, hi, "متغير") { Some(TokenKind::Var) }
        else if segment_is(v, lo, hi, "إذا") { Some(TokenKind::If) }
        else if segment_is(v, lo, hi, "اذا") { Some(TokenKind::If) }
        else if segment_is(v, lo, hi, "وإلا") { Some(TokenKind::Else) }
        else if segment_is(v, lo, hi, "والا") { Some(TokenKind::Else) }
        else if segment_is(v, lo, hi, "طالما") { Some(TokenKind::While) }
        else if segment_is(v, lo, hi, "اطبع") { Some(TokenKind::Print) }
        else if segment_is(v, lo, hi, "اكتب") { Some(TokenKind::Print) }
        else if segment_is(v, lo, hi, "صحيح") { Some(TokenKind::True) }
        else if segment_is(v, lo, hi, "صواب") { Some(TokenKind::True) }
        else if segment_is(v, lo, hi, "خطأ") { Some(TokenKind::False) }
        else if segment_is(v, lo, hi, "دالة") { Some(TokenKind::Function) }
        else if segment_is(v, lo, hi, "عد") { Some(TokenKind::Return) }
        else if segment_is(v, lo, hi, "أرجع") { Some(TokenKind::Return) }
        else if segment_is(v, lo, hi, "ارجع") { Some(TokenKind::Return) }
        else if segment_is(v, lo, hi, "اصغر") { Some(TokenKind::Less) }
        else if segment_is(v, lo, hi, "يساوي") { Some(TokenKind::EqualEqual) }
        else if segment_is(v, lo, hi, "مساوي") { Some(TokenKind::EqualEqual) }
        else if segment_is(v, lo, hi, "لا") { Some(TokenKind::BangEqual) }
        else if segment_is(v, lo, hi, "و") { Some(TokenKind::AndAnd) }
        else if segment_is(v, lo, hi, "أو") { Some(TokenKind::OrOr) }
        else if segment_is(v, lo, hi, "او") { Some(TokenKind::OrOr) }
        else { None }
    }
}

} // verus!
