//! Lexical analysis: source text to a flat token sequence.
//!
//! The executable lexer is specified against `lex_from`, a recursive
//! mathematical description of tokenization over a `Seq<char>`.
use vstd::prelude::*;

verus! {

/// Reserved words that begin statements.
#[derive(Debug, Clone, Copy, PartialEq, Eq, Structural)]
pub enum KeywordType {
    If,
    Else,
    While,
    Function,
    VarDef,
}

/// Binary operator kinds, shared by tokens and expressions.
#[derive(Debug, Clone, Copy, PartialEq, Eq, Structural)]
pub enum OperatorType {
    Addition,
    Subtraction,
    Multiplication,
    Division,
    Equals,
    NotEquals,
}

/// The payload of one token.
#[derive(Debug, Clone, PartialEq)]
pub enum TokenType {
    Identifier(String),
    Integer(i64),
    Keyword(KeywordType),
    Operator(OperatorType),
    LeftParan,
    RightParan,
    LeftBrack,
    RightBrack,
    Assignment,
    Return,
    Comma,
    Pipe,
}

/// Mathematical image of a `TokenType`: identifier text as a `Seq<char>`.
pub ghost enum TokenTypeView {
    Identifier(Seq<char>),
    Integer(i64),
    Keyword(KeywordType),
    Operator(OperatorType),
    LeftParan,
    RightParan,
    LeftBrack,
    RightBrack,
    Assignment,
    Return,
    Comma,
    Pipe,
}

impl View for TokenType {
    type V = TokenTypeView;

    open spec fn view(&self) -> TokenTypeView {
        match self {
            TokenType::Identifier(s) => TokenTypeView::Identifier(s@),
            TokenType::Integer(v) => TokenTypeView::Integer(*v),
            TokenType::Keyword(k) => TokenTypeView::Keyword(*k),
            TokenType::Operator(op) => TokenTypeView::Operator(*op),
            TokenType::LeftParan => TokenTypeView::LeftParan,
            TokenType::RightParan => TokenTypeView::RightParan,
            TokenType::LeftBrack => TokenTypeView::LeftBrack,
            TokenType::RightBrack => TokenTypeView::RightBrack,
            TokenType::Assignment => TokenTypeView::Assignment,
            TokenType::Return => TokenTypeView::Return,
            TokenType::Comma => TokenTypeView::Comma,
            TokenType::Pipe => TokenTypeView::Pipe,
        }
    }
}

impl TokenType {
    /// An explicit copy whose view provably equals the original's.
    pub fn duplicate(&self) -> (r: TokenType)
        ensures
            r@ == self@,
    {
        match self {
            TokenType::Identifier(s) => TokenType::Identifier(s.clone()),
            TokenType::Integer(v) => TokenType::Integer(*v),
            TokenType::Keyword(k) => TokenType::Keyword(*k),
            TokenType::Operator(op) => TokenType::Operator(*op),
            TokenType::LeftParan => TokenType::LeftParan,
            TokenType::RightParan => TokenType::RightParan,
            TokenType::LeftBrack => TokenType::LeftBrack,
            TokenType::RightBrack => TokenType::RightBrack,
            TokenType::Assignment => TokenType::Assignment,
            TokenType::Return => TokenType::Return,
            TokenType::Comma => TokenType::Comma,
            TokenType::Pipe => TokenType::Pipe,
        }
    }
}

/// One token together with the character offset where it starts.
#[derive(Debug, Clone, PartialEq)]
pub struct Token {
    pub token_type: TokenType,
    pub index: usize,
}

/// Mathematical image of a `Token`.
pub ghost struct TokenView {
    pub token_type: TokenTypeView,
    pub index: int,
}

impl View for Token {
    type V = TokenView;

    open spec fn view(&self) -> TokenView {
        TokenView { token_type: self.token_type@, index: self.index as int }
    }
}

impl Token {
    /// An explicit copy whose view provably equals the original's.
    pub fn duplicate(&self) -> (r: Token)
        ensures
            r@ == self@,
    {
        Token { token_type: self.token_type.duplicate(), index: self.index }
    }
}

/// The views of a token vector, element by element.
pub open spec fn views_of(tokens: Seq<Token>) -> Seq<TokenView> {
    tokens.map_values(|t: Token| t@)
}

/// Failure of the lexer: the offending character and its offset.
#[derive(Debug, Clone, Copy, PartialEq, Eq, Structural)]
pub struct LexError {
    pub index: usize,
    pub character: char,
}

/// Lowercase ASCII letters, the only identifier characters.
pub open spec fn is_lower_ascii(c: char) -> bool {
    'a' as u32 <= c as u32 && c as u32 <= 'z' as u32
}

/// ASCII decimal digits.
pub open spec fn is_digit_ascii(c: char) -> bool {
    '0' as u32 <= c as u32 && c as u32 <= '9' as u32
}

/// Numeric value of an ASCII digit.
pub open spec fn digit_value(c: char) -> int {
    c as u32 - '0' as u32
}

/// Length of the run of lowercase letters starting at `i`.
pub open spec fn alpha_run(s: Seq<char>, i: int) -> nat
    decreases s.len() - i,
{
    if 0 <= i < s.len() && is_lower_ascii(s[i]) {
        1 + alpha_run(s, i + 1)
    } else {
        0
    }
}

/// Length of the run of digits starting at `i`.
pub open spec fn digit_run(s: Seq<char>, i: int) -> nat
    decreases s.len() - i,
{
    if 0 <= i < s.len() && is_digit_ascii(s[i]) {
        1 + digit_run(s, i + 1)
    } else {
        0
    }
}

pub proof fn lemma_alpha_run_bound(s: Seq<char>, i: int)
    requires
        0 <= i <= s.len(),
    ensures
        alpha_run(s, i) <= s.len() - i,
    decreases s.len() - i,
{
    if i < s.len() && is_lower_ascii(s[i]) {
        lemma_alpha_run_bound(s, i + 1);
    }
}

pub proof fn lemma_digit_run_bound(s: Seq<char>, i: int)
    requires
        0 <= i <= s.len(),
    ensures
        digit_run(s, i) <= s.len() - i,
    decreases s.len() - i,
{
    if i < s.len() && is_digit_ascii(s[i]) {
        lemma_digit_run_bound(s, i + 1);
    }
}

/// The fixed table from identifier spellings to keyword and operator tokens.
/// Any other spelling names an identifier.
pub open spec fn keyword_lookup(w: Seq<char>) -> TokenTypeView {
    if w == "looksmaxxing"@ {
        TokenTypeView::Keyword(KeywordType::VarDef)
    } else if w == "skibidi"@ {
        TokenTypeView::Keyword(KeywordType::Function)
    } else if w == "edge"@ {
        TokenTypeView::Keyword(KeywordType::While)
    } else if w == "sus"@ {
        TokenTypeView::Keyword(KeywordType::If)
    } else if w == "sussy"@ {
        TokenTypeView::Keyword(KeywordType::Else)
    } else if w == "rizz"@ {
        TokenTypeView::Operator(OperatorType::Addition)
    } else if w == "fanumtax"@ {
        TokenTypeView::Operator(OperatorType::Subtraction)
    } else if w == "gyatt"@ {
        TokenTypeView::Operator(OperatorType::Multiplication)
    } else if w == "mog"@ {
        TokenTypeView::Operator(OperatorType::Division)
    } else if w == "sigma"@ {
        TokenTypeView::Return
    } else {
        TokenTypeView::Identifier(w)
    }
}

/// Wrap an integer into the range of `u64`.
pub open spec fn wrap_u64(n: int) -> u64 {
    (n % 0x1_0000_0000_0000_0000) as u64
}

/// Left-to-right accumulation of a digit run, wrapping at sixty-four bits.
pub open spec fn digits_acc(s: Seq<char>, i: int, j: int, acc: u64) -> u64
    decreases j - i,
{
    if i < j {
        digits_acc(s, i + 1, j, wrap_u64(acc * 10 + digit_value(s[i])))
    } else {
        acc
    }
}

/// Reinterpret sixty-four accumulated bits as a signed value.
pub open spec fn u64_as_i64(u: u64) -> i64 {
    if u <= i64::MAX as u64 {
        u as i64
    } else {
        (u - 0x1_0000_0000_0000_0000) as i64
    }
}

/// The integer token value for the digit run `s[i..j]`: decimal accumulation
/// with two's-complement wrapping: literal overflow deliberately wraps.
pub open spec fn int_token_value(s: Seq<char>, i: int, j: int) -> i64 {
    u64_as_i64(digits_acc(s, i, j, 0))
}

/// Prepend a token to the result of lexing the rest of the input.
pub open spec fn lex_cons(t: TokenView, rest: Result<Seq<TokenView>, LexError>) -> Result<
    Seq<TokenView>,
    LexError,
> {
    match rest {
        Ok(ts) => Ok(seq![t] + ts),
        Err(e) => Err(e),
    }
}

pub open spec fn tok(kind: TokenTypeView, i: int) -> TokenView {
    TokenView { token_type: kind, index: i }
}

/// The mathematical lexer: the token sequence of `s` from offset `i` on, or
/// the first unrecognized character.
pub open spec fn lex_from(s: Seq<char>, i: int) -> Result<Seq<TokenView>, LexError>
    decreases s.len() - i,
    when 0 <= i
    via lex_from_decreases
{
    if i >= s.len() {
        Ok(Seq::empty())
    } else {
        let c = s[i];
        if c == '|' {
            lex_cons(tok(TokenTypeView::Pipe, i), lex_from(s, i + 1))
        } else if is_lower_ascii(c) {
            let j = i + alpha_run(s, i);
            lex_cons(tok(keyword_lookup(s.subrange(i, j)), i), lex_from(s, j))
        } else if is_digit_ascii(c) {
            let j = i + digit_run(s, i);
            lex_cons(tok(TokenTypeView::Integer(int_token_value(s, i, j)), i), lex_from(s, j))
        } else if c == ' ' || c == '\n' || c == '\r' {
            lex_from(s, i + 1)
        } else if c == '=' {
            if i + 1 < s.len() && s[i + 1] == '=' {
                lex_cons(tok(TokenTypeView::Operator(OperatorType::Equals), i), lex_from(s, i + 2))
            } else {
                lex_cons(tok(TokenTypeView::Assignment, i), lex_from(s, i + 1))
            }
        } else if c == '!' {
            if i + 1 < s.len() && s[i + 1] == '=' {
                lex_cons(
                    tok(TokenTypeView::Operator(OperatorType::NotEquals), i),
                    lex_from(s, i + 2),
                )
            } else {
                Err(LexError { index: i as usize, character: c })
            }
        } else if c == '(' {
            lex_cons(tok(TokenTypeView::LeftParan, i), lex_from(s, i + 1))
        } else if c == ')' {
            lex_cons(tok(TokenTypeView::RightParan, i), lex_from(s, i + 1))
        } else if c == '>' {
            if i + 1 < s.len() && s[i + 1] == '>' {
                lex_cons(tok(TokenTypeView::LeftBrack, i), lex_from(s, i + 2))
            } else {
                Err(LexError { index: i as usize, character: c })
            }
        } else if c == '<' {
            if i + 1 < s.len() && s[i + 1] == '<' {
                lex_cons(tok(TokenTypeView::RightBrack, i), lex_from(s, i + 2))
            } else {
                Err(LexError { index: i as usize, character: c })
            }
        } else if c == ',' {
            lex_cons(tok(TokenTypeView::Comma, i), lex_from(s, i + 1))
        } else {
            Err(LexError { index: i as usize, character: c })
        }
    }
}

#[via_fn]
proof fn lex_from_decreases(s: Seq<char>, i: int) {
    if 0 <= i < s.len() {
        lemma_alpha_run_bound(s, i);
        lemma_digit_run_bound(s, i);
    }
}

/// Mathematical image of the lexer's state.
pub ghost struct LexerView {
    pub code: Seq<char>,
    pub idx: int,
}

/// Walks the source text once and produces the token sequence.
pub struct Lexer {
    idx: usize,
    code: String,
}

impl View for Lexer {
    type V = LexerView;

    closed spec fn view(&self) -> LexerView {
        LexerView { code: self.code@, idx: self.idx as int }
    }
}

impl Lexer {
    /// Maps a completed identifier run through the keyword table.
    fn check_identifier(&self, string: String) -> (t: TokenType)
        ensures
            t@ == keyword_lookup(string@),
    {
        if string == String::from_str("looksmaxxing") {
            TokenType::Keyword(KeywordType::VarDef)
        } else if string == String::from_str("skibidi") {
            TokenType::Keyword(KeywordType::Function)
        } else if string == String::from_str("edge") {
            TokenType::Keyword(KeywordType::While)
        } else if string == String::from_str("sus") {
            TokenType::Keyword(KeywordType::If)
        } else if string == String::from_str("sussy") {
            TokenType::Keyword(KeywordType::Else)
        } else if string == String::from_str("rizz") {
            TokenType::Operator(OperatorType::Addition)
        } else if string == String::from_str("fanumtax") {
            TokenType::Operator(OperatorType::Subtraction)
        } else if string == String::from_str("gyatt") {
            TokenType::Operator(OperatorType::Multiplication)
        } else if string == String::from_str("mog") {
            TokenType::Operator(OperatorType::Division)
        } else if string == String::from_str("sigma") {
            TokenType::Return
        } else {
            TokenType::Identifier(string)
        }
    }

    /// The character at the current offset, if any.
    fn current(&self) -> (r: Option<char>)
        ensures
            r == if 0 <= self@.idx < self@.code.len() {
                Some(self@.code[self@.idx])
            } else {
                None::<char>
            },
    {
        if self.idx < self.code.as_str().unicode_len() {
            Some(self.code.as_str().get_char(self.idx))
        } else {
            None
        }
    }

    /// The character one past the current offset, if any.
    fn peek(&self) -> (r: Option<char>)
        ensures
            r == if 0 <= self@.idx + 1 < self@.code.len() {
                Some(self@.code[self@.idx + 1])
            } else {
                None::<char>
            },
    {
        let n = self.code.as_str().unicode_len();
        if self.idx >= n {
            None
        } else if self.idx + 1 < n {
            Some(self.code.as_str().get_char(self.idx + 1))
        } else {
            None
        }
    }

    pub fn new(code: String) -> (l: Lexer)
        ensures
            l@.code == code@,
            l@.idx == 0,
    {
        Lexer { code, idx: 0 }
    }

    /// Tokenizes the whole remaining input, exactly as `lex_from` describes:
    /// on success the token views are `lex_from` of the source, and on failure
    /// the error is the first unrecognized character.
    pub fn lex(&mut self) -> (r: Result<Vec<Token>, LexError>)
        requires
            old(self)@.idx <= old(self)@.code.len(),
        ensures
            final(self)@.code == old(self)@.code,
            match r {
                Ok(tokens) => lex_from(old(self)@.code, old(self)@.idx) == Ok::<_, LexError>(
                    views_of(tokens@),
                ) && final(self)@.idx == old(self)@.code.len(),
                Err(e) => lex_from(old(self)@.code, old(self)@.idx) == Err::<Seq<TokenView>, _>(e)
                    && final(self)@.idx == e.index,
            },
    {
        let ghost s = self.code@;
        let ghost i0 = self.idx as int;
        let n = self.code.as_str().unicode_len();
        let mut tokens: Vec<Token> = Vec::new();

        while self.idx < n
            invariant
                s == old(self)@.code,
                i0 == old(self)@.idx,
                self@.code == s,
                n == s.len(),
                self@.idx <= n,
                0 <= i0,
                lex_from(s, i0) == match lex_from(s, self@.idx) {
                    Ok(ts) => Ok::<_, LexError>(views_of(tokens@) + ts),
                    Err(e) => Err::<Seq<TokenView>, LexError>(e),
                },
            decreases n - self.idx,
        {
            let ghost pre = self.idx as int;
            let ghost tokens_pre = tokens@;
            let start_idx = self.idx;
            let c = self.code.as_str().get_char(self.idx);

            let tok_typ: Option<TokenType> = if c == '|' {
                self.idx += 1;
                Some(TokenType::Pipe)
            } else if 'a' as u32 <= c as u32 && c as u32 <= 'z' as u32 {
                loop
                    invariant
                        self@.code == s,
                        n == s.len(),
                        start_idx <= self@.idx <= n,
                        alpha_run(s, start_idx as int) == self@.idx - start_idx + alpha_run(
                            s,
                            self@.idx,
                        ),
                    ensures
                        self@.code == s,
                        start_idx <= self@.idx <= n,
                        self@.idx == start_idx + alpha_run(s, start_idx as int),
                    decreases n - self.idx,
                {
                    let more = if self.idx < n {
                        let cc = self.code.as_str().get_char(self.idx);
                        'a' as u32 <= cc as u32 && cc as u32 <= 'z' as u32
                    } else {
                        false
                    };
                    if !more {
                        proof {
                            assert(alpha_run(s, self@.idx) == 0);
                        }
                        break ;
                    }
                    self.idx += 1;
                }
                let word = self.code.as_str().substring_char(start_idx, self.idx).to_owned();
                proof {
                    assert(word@ == s.subrange(start_idx as int, self@.idx));
                }
                Some(self.check_identifier(word))
            } else if '0' as u32 <= c as u32 && c as u32 <= '9' as u32 {
                let mut num: u64 = 0;
                let ghost jend = start_idx + digit_run(s, start_idx as int);
                proof {
                    lemma_digit_run_bound(s, start_idx as int);
                }
                loop
                    invariant
                        self@.code == s,
                        n == s.len(),
                        start_idx <= self@.idx <= n,
                        jend == start_idx + digit_run(s, start_idx as int),
                        digit_run(s, start_idx as int) == self@.idx - start_idx + digit_run(
                            s,
                            self@.idx,
                        ),
                        digits_acc(s, start_idx as int, jend, 0) == digits_acc(
                            s,
                            self@.idx,
                            jend,
                            num,
                        ),
                    ensures
                        self@.code == s,
                        start_idx <= self@.idx <= n,
                        self@.idx == jend,
                        digits_acc(s, start_idx as int, jend, 0) == num,
                    decreases n - self.idx,
                {
                    let more = if self.idx < n {
                        let cc = self.code.as_str().get_char(self.idx);
                        '0' as u32 <= cc as u32 && cc as u32 <= '9' as u32
                    } else {
                        false
                    };
                    if !more {
                        proof {
                            assert(digit_run(s, self@.idx) == 0);
                            assert(digits_acc(s, self@.idx, jend, num) == num);
                        }
                        break ;
                    }
                    let cc = self.code.as_str().get_char(self.idx);
                    let d: u64 = (cc as u32 - '0' as u32) as u64;
                    let wide: u128 = (num as u128) * 10 + (d as u128);
                    proof {
                        assert(digit_run(s, self@.idx) == 1 + digit_run(s, self@.idx + 1));
                        assert(self@.idx < jend);
                    }
                    num = (wide % 0x1_0000_0000_0000_0000u128) as u64;
                    self.idx += 1;
                }
                let value: i64 = if num <= i64::MAX as u64 {
                    num as i64
                } else {
                    ((num - 0x8000_0000_0000_0000u64) as i64) + i64::MIN
                };
                proof {
                    assert(value == int_token_value(s, start_idx as int, jend));
                }
                Some(TokenType::Integer(value))
            } else if c == ' ' || c == '\n' || c == '\r' {
                self.idx += 1;
                None
            } else if c == '=' {
                self.idx += 1;
                if matches!(self.current(), Some('=')) {
                    self.idx += 1;
                    Some(TokenType::Operator(OperatorType::Equals))
                } else {
                    Some(TokenType::Assignment)
                }
            } else if c == '!' {
                if matches!(self.peek(), Some('=')) {
                    self.idx += 2;
                    Some(TokenType::Operator(OperatorType::NotEquals))
                } else {
                    return Err(LexError { index: start_idx, character: c });
                }
            } else if c == '(' {
                self.idx += 1;
                Some(TokenType::LeftParan)
            } else if c == ')' {
                self.idx += 1;
                Some(TokenType::RightParan)
            } else if c == '>' {
                if matches!(self.peek(), Some('>')) {
                    self.idx += 2;
                    Some(TokenType::LeftBrack)
                } else {
                    return Err(LexError { index: start_idx, character: c });
                }
            } else if c == '<' {
                if matches!(self.peek(), Some('<')) {
                    self.idx += 2;
                    Some(TokenType::RightBrack)
                } else {
                    return Err(LexError { index: start_idx, character: c });
                }
            } else if c == ',' {
                self.idx += 1;
                Some(TokenType::Comma)
            } else {
                return Err(LexError { index: start_idx, character: c });
            };

            if let Some(tt) = tok_typ {
                let ghost ttv = tt@;
                tokens.push(Token { token_type: tt, index: start_idx });
                proof {
                    let t = tok(ttv, pre);
                    assert(views_of(tokens@) =~= views_of(tokens_pre) + seq![t]);
                    assert(lex_from(s, pre) == lex_cons(t, lex_from(s, self@.idx)));
                    match lex_from(s, self@.idx) {
                        Ok(ts) => {
                            assert(views_of(tokens_pre) + (seq![t] + ts) =~= views_of(tokens@)
                                + ts);
                        },
                        Err(_) => {},
                    }
                }
            } else {
                proof {
                    assert(lex_from(s, pre) == lex_from(s, self@.idx));
                }
            }
        }
        proof {
            assert(lex_from(s, self@.idx) == Ok::<_, LexError>(Seq::<TokenView>::empty()));
            assert(views_of(tokens@) + Seq::<TokenView>::empty() =~= views_of(tokens@));
        }
        Ok(tokens)
    }
}

/// Whether every character of a word is a lowercase letter.
pub open spec fn all_lower(w: Seq<char>) -> bool {
    forall|i: int| 0 <= i < w.len() ==> is_lower_ascii(#[trigger] w[i])
}

/// Whether a token's identifier name, if it has one, is all lowercase.
pub open spec fn token_name_lower(t: TokenView) -> bool {
    match t.token_type {
        TokenTypeView::Identifier(nm) => all_lower(nm),
        _ => true,
    }
}

pub proof fn lemma_alpha_run_chars(s: Seq<char>, i: int, t: int)
    requires
        0 <= i <= t < i + alpha_run(s, i),
    ensures
        is_lower_ascii(s[t]),
    decreases t - i,
{
    if t > i {
        lemma_alpha_run_chars(s, i + 1, t);
    }
}

/// Law: every identifier token the lexer produces carries a name made of
/// lowercase letters only; no punctuation or brace can reach a name.
pub proof fn lemma_lex_identifiers_lower(s: Seq<char>, i: int, toks: Seq<TokenView>)
    requires
        0 <= i,
        lex_from(s, i) == Ok::<Seq<TokenView>, LexError>(toks),
    ensures
        forall|j: int| 0 <= j < toks.len() ==> token_name_lower(#[trigger] toks[j]),
    decreases s.len() - i, 1int,
{
    if i >= s.len() {
    } else {
        let c = s[i];
        if is_lower_ascii(c) && c != '|' {
            lemma_alpha_run_bound(s, i);
            let j = i + alpha_run(s, i);
            let w = s.subrange(i, j);
            let rest = lex_from(s, j);
            match rest {
                Ok(ts) => {
                    lemma_lex_identifiers_lower(s, j, ts);
                    assert(toks =~= seq![tok(keyword_lookup(w), i)] + ts);
                    assert forall|t: int| 0 <= t < w.len() implies is_lower_ascii(
                        #[trigger] w[t],
                    ) by {
                        lemma_alpha_run_chars(s, i, i + t);
                    }
                    assert(token_name_lower(toks[0]));
                    assert forall|jj: int| 0 <= jj < toks.len() implies token_name_lower(
                        #[trigger] toks[jj],
                    ) by {
                        if jj > 0 {
                            assert(toks[jj] == ts[jj - 1]);
                        }
                    }
                },
                Err(_) => {},
            }
        } else if is_digit_ascii(c) {
            lemma_digit_run_bound(s, i);
            let j = i + digit_run(s, i);
            match lex_from(s, j) {
                Ok(ts) => {
                    lemma_lex_identifiers_lower(s, j, ts);
                    assert(toks =~= seq![
                        tok(TokenTypeView::Integer(int_token_value(s, i, j)), i),
                    ] + ts);
                    assert forall|jj: int| 0 <= jj < toks.len() implies token_name_lower(
                        #[trigger] toks[jj],
                    ) by {
                        if jj > 0 {
                            assert(toks[jj] == ts[jj - 1]);
                        }
                    }
                },
                Err(_) => {},
            }
        } else if c == ' ' || c == '\n' || c == '\r' {
            match lex_from(s, i + 1) {
                Ok(ts) => {
                    lemma_lex_identifiers_lower(s, i + 1, ts);
                },
                Err(_) => {},
            }
        } else {
            // Every remaining branch emits a fixed, name-free token and
            // continues one or two characters on, or stops with an error.
            lemma_lex_fixed_branches(s, i, toks);
        }
    }
}

/// The branches of `lex_from` for punctuation and operators: they prepend a
/// token that carries no name.
proof fn lemma_lex_fixed_branches(s: Seq<char>, i: int, toks: Seq<TokenView>)
    requires
        0 <= i < s.len(),
        !is_lower_ascii(s[i]),
        !is_digit_ascii(s[i]),
        s[i] != ' ' && s[i] != '\n' && s[i] != '\r',
        lex_from(s, i) == Ok::<Seq<TokenView>, LexError>(toks),
    ensures
        forall|j: int| 0 <= j < toks.len() ==> token_name_lower(#[trigger] toks[j]),
    decreases s.len() - i, 0int,
{
    let c = s[i];
    let two = i + 1 < s.len();
    let n1 = lex_from(s, i + 1);
    let n2 = lex_from(s, i + 2);
    if c == '|' || c == '(' || c == ')' || c == ',' || (c == '=' && !(two && s[i + 1] == '=')) {
        match n1 {
            Ok(ts) => {
                lemma_lex_identifiers_lower(s, i + 1, ts);
                assert(toks[0].token_type !is Identifier);
                assert forall|jj: int| 0 <= jj < toks.len() implies token_name_lower(
                    #[trigger] toks[jj],
                ) by {
                    if jj > 0 {
                        assert(toks[jj] == ts[jj - 1]);
                    }
                }
            },
            Err(_) => {},
        }
    } else {
        match n2 {
            Ok(ts) => {
                lemma_lex_identifiers_lower(s, i + 2, ts);
                assert(toks[0].token_type !is Identifier);
                assert forall|jj: int| 0 <= jj < toks.len() implies token_name_lower(
                    #[trigger] toks[jj],
                ) by {
                    if jj > 0 {
                        assert(toks[jj] == ts[jj - 1]);
                    }
                }
            },
            Err(_) => {},
        }
    }
}


} // verus!
