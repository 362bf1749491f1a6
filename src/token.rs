//! The tokens of the structural netlist subset, and the lexer that produces them.
use vstd::prelude::*;
use crate::text::str_eq;
use vstd::std_specs::iter::IteratorSpec;

verus! {

broadcast use vstd::string::group_string_axioms;

/// A token of the netlist source.
#[derive(Clone, Debug, Eq, PartialEq)]
pub enum Token {
    Reserved(String),
    Identifier(String),
    Number(String),
}

/// Whitespace as ASCII knows it.
pub open spec fn is_space(c: char) -> bool {
    c == ' ' || c == '\t' || c == '\n' || c == '\r' || c == '\x0C'
}

/// An ASCII letter.
pub open spec fn is_alpha(c: char) -> bool {
    ('a' <= c && c <= 'z') || ('A' <= c && c <= 'Z')
}

/// An ASCII digit.
pub open spec fn is_digit(c: char) -> bool {
    '0' <= c && c <= '9'
}

/// A character that may continue an identifier.
pub open spec fn is_ident_char(c: char) -> bool {
    is_alpha(c) || is_digit(c) || c == '_'
}

/// A character that may continue a number: digits, a base mark and its letters.
pub open spec fn is_number_char(c: char) -> bool {
    is_ident_char(c) || c == '\''
}

/// A punctuation character that is a token by itself.
pub open spec fn is_single(c: char) -> bool {
    c == '(' || c == ')' || c == '[' || c == ']' || c == ':' || c == ';' || c == ',' || c == '.'
        || c == '=' || c == '+' || c == '&' || c == '~' || c == '^'
}

/// A keyword of the subset.
pub open spec fn is_keyword(s: Seq<char>) -> bool {
    s == "endmodule"@ || s == "module"@ || s == "output"@ || s == "assign"@ || s == "input"@
        || s == "wire"@
}

/// The kind of a token.
pub enum TokenKind {
    Reserved,
    Identifier,
    Number,
}

/// The keyword `kw` stands at position `i` of `s`, not followed by an identifier character.
pub open spec fn keyword_at(s: Seq<char>, i: int, kw: Seq<char>) -> bool {
    &&& 0 <= i
    &&& i + kw.len() <= s.len()
    &&& s.subrange(i, i + kw.len()) == kw
    &&& !(i + kw.len() < s.len() && is_ident_char(s[i + kw.len()]))
}

/// The first keyword, in the order `endmodule module output assign input wire`, that stands at
/// position `i` of `s`.
pub open spec fn keyword(s: Seq<char>, i: int) -> Option<Seq<char>> {
    if keyword_at(s, i, "endmodule"@) {
        Some("endmodule"@)
    } else if keyword_at(s, i, "module"@) {
        Some("module"@)
    } else if keyword_at(s, i, "output"@) {
        Some("output"@)
    } else if keyword_at(s, i, "assign"@) {
        Some("assign"@)
    } else if keyword_at(s, i, "input"@) {
        Some("input"@)
    } else if keyword_at(s, i, "wire"@) {
        Some("wire"@)
    } else {
        None
    }
}

/// The end of the run of identifier characters of `s` from position `i`.
pub open spec fn ident_run(s: Seq<char>, i: int) -> int
    decreases s.len() - i,
{
    if 0 <= i < s.len() && is_ident_char(s[i]) {
        ident_run(s, i + 1)
    } else {
        i
    }
}

/// The end of the run of number characters of `s` from position `i`.
pub open spec fn number_run(s: Seq<char>, i: int) -> int
    decreases s.len() - i,
{
    if 0 <= i < s.len() && is_number_char(s[i]) {
        number_run(s, i + 1)
    } else {
        i
    }
}

/// The tokens of `s` from position `i` on: whitespace separates them, punctuation stands
/// alone, keywords come before identifiers, and a character that starts no token is skipped.
pub open spec fn lex(s: Seq<char>, i: int) -> Seq<(TokenKind, Seq<char>)>
    decreases s.len() - i,
{
    if i < 0 || i >= s.len() {
        Seq::empty()
    } else if is_space(s[i]) {
        lex(s, i + 1)
    } else if is_single(s[i]) {
        seq![(TokenKind::Reserved, seq![s[i]])] + lex(s, i + 1)
    } else {
        match keyword(s, i) {
            Some(kw) => if kw.len() > 0 {
                seq![(TokenKind::Reserved, kw)] + lex(s, i + kw.len())
            } else {
                Seq::empty()
            },
            None => if is_alpha(s[i]) && i < ident_run(s, i) <= s.len() {
                seq![(TokenKind::Identifier, s.subrange(i, ident_run(s, i)))] + lex(s, ident_run(s, i))
            } else if is_digit(s[i]) && i < number_run(s, i) <= s.len() {
                seq![(TokenKind::Number, s.subrange(i, number_run(s, i)))] + lex(s, number_run(s, i))
            } else {
                lex(s, i + 1)
            },
        }
    }
}

impl Token {
    /// The kind and text of the token.
    pub open spec fn kind_text(&self) -> (TokenKind, Seq<char>) {
        match self {
            Token::Reserved(s) => (TokenKind::Reserved, s@),
            Token::Identifier(s) => (TokenKind::Identifier, s@),
            Token::Number(s) => (TokenKind::Number, s@),
        }
    }

    /// The text of the token.
    pub open spec fn text(&self) -> Seq<char> {
        match self {
            Token::Reserved(s) => s@,
            Token::Identifier(s) => s@,
            Token::Number(s) => s@,
        }
    }

    /// The text of the token.
    pub fn to_string(&self) -> (r: String)
        ensures
            r@ == self.text(),
    {
        match self {
            Token::Reserved(s) => s.clone(),
            Token::Identifier(s) => s.clone(),
            Token::Number(s) => s.clone(),
        }
    }

    /// Whether the two tokens are of the same kind and text.
    pub fn same_as(&self, other: &Token) -> (r: bool)
        ensures
            r == (self.text() == other.text() && (self is Reserved <==> other is Reserved)
                && (self is Identifier <==> other is Identifier)),
    {
        match (self, other) {
            (Token::Reserved(a), Token::Reserved(b)) => str_eq(a.as_str(), b.as_str()),
            (Token::Identifier(a), Token::Identifier(b)) => str_eq(a.as_str(), b.as_str()),
            (Token::Number(a), Token::Number(b)) => str_eq(a.as_str(), b.as_str()),
            _ => false,
        }
    }

    /// A copy of the token.
    pub fn duplicate(&self) -> (r: Token)
        ensures
            r.text() == self.text(),
            r is Reserved <==> self is Reserved,
            r is Identifier <==> self is Identifier,
            r is Number <==> self is Number,
            r.kind_text() == self.kind_text(),
    {
        match self {
            Token::Reserved(s) => Token::Reserved(s.clone()),
            Token::Identifier(s) => Token::Identifier(s.clone()),
            Token::Number(s) => Token::Number(s.clone()),
        }
    }
}

/// Whether `c` is an ASCII letter.
pub fn alpha(c: char) -> (r: bool)
    ensures
        r == is_alpha(c),
{
    ('a' <= c && c <= 'z') || ('A' <= c && c <= 'Z')
}

/// Whether `c` is an ASCII digit.
pub fn digit(c: char) -> (r: bool)
    ensures
        r == is_digit(c),
{
    '0' <= c && c <= '9'
}

/// Whether `c` may continue an identifier.
pub fn ident_char(c: char) -> (r: bool)
    ensures
        r == is_ident_char(c),
{
    alpha(c) || digit(c) || c == '_'
}

/// Whether `c` is ASCII whitespace.
pub fn space(c: char) -> (r: bool)
    ensures
        r == is_space(c),
{
    c == ' ' || c == '\t' || c == '\n' || c == '\r' || c == '\x0C'
}

/// Relies on `String::push`: the character is appended to the string.
#[verifier::external_body]
fn push_char(s: &mut String, c: char)
    ensures
        final(s)@ == old(s)@.push(c),
{
    s.push(c)
}

/// The characters of `s`, in order.
pub fn chars_of(s: &str) -> (r: Vec<char>)
    ensures
        r@ == s@,
{
    let mut it = s.chars();
    let mut r: Vec<char> = Vec::new();
    loop
        invariant
            it.obeys_prophetic_iter_laws(),
            r@ + it.remaining() == s@,
        ensures
            r@ == s@,
        decreases s@.len() - r@.len(),
    {
        let ghost before = it.remaining();
        match it.next() {
            Some(c) => {
                r.push(c);
                assert(r@ + it.remaining() =~= s@);
            },
            None => {
                assert(r@ =~= s@);
                break;
            },
        }
    }
    r
}

/// The lexer of the netlist subset: a position in a sequence of characters.
#[derive(Debug)]
pub struct Lexer {
    pub input: Vec<char>,
    pub index: usize,
}

impl Lexer {
    /// A lexer at the start of `input`.
    pub fn from_str(input: &str) -> (r: Self)
        ensures
            r.input@ == input@,
            r.index == 0,
    {
        Lexer { input: chars_of(input), index: 0 }
    }

    fn current(&self) -> (r: Option<char>)
        ensures
            match r {
                Some(c) => self.index < self.input@.len() && c == self.input@[self.index as int],
                None => self.index >= self.input@.len(),
            },
    {
        if self.index < self.input.len() {
            Some(self.input[self.index])
        } else {
            None
        }
    }

    fn get_char(&self, n: usize) -> (r: Option<char>)
        ensures
            match r {
                Some(c) => n < self.input@.len() && c == self.input@[n as int],
                None => n >= self.input@.len(),
            },
    {
        if n < self.input.len() {
            Some(self.input[n])
        } else {
            None
        }
    }

    /// Whether `pat` stands at the current position.
    fn is_match_without_delimiter(&self, pat: &str) -> (r: bool)
        ensures
            r == (self.index + pat@.len() <= self.input@.len() && self.input@.subrange(
                self.index as int,
                self.index + pat@.len(),
            ) == pat@),
    {
        let n = pat.unicode_len();
        let len = self.input.len();
        if self.index > len || n > len - self.index {
            return false;
        }
        let mut k: usize = 0;
        while k < n
            invariant
                n == pat@.len(),
                len == self.input@.len(),
                self.index + n <= len,
                k <= n,
                forall|j: int| 0 <= j < k ==> self.input@[self.index + j] == pat@[j],
            decreases n - k,
        {
            if self.input[self.index + k] != pat.get_char(k) {
                assert(self.input@.subrange(self.index as int, self.index + n)[k as int] != pat@[k as int]);
                return false;
            }
            k = k + 1;
        }
        assert(self.input@.subrange(self.index as int, self.index + n) =~= pat@);
        true
    }

    /// Whether the keyword `pat` stands at the current position, not followed by an
    /// identifier character.
    fn is_match(&self, pat: &str) -> (r: bool)
        ensures
            r == keyword_at(self.input@, self.index as int, pat@),
    {
        let n = pat.unicode_len();
        let len = self.input.len();
        if !self.is_match_without_delimiter(pat) {
            return false;
        }
        match self.get_char(self.index + n) {
            Some(c) => !ident_char(c),
            None => true,
        }
    }

    /// A keyword at the current position, consumed.
    fn consume_reserved_token(&mut self) -> (r: Option<Token>)
        ensures
            match r {
                Some(t) => t is Reserved && keyword(old(self).input@, old(self).index as int) == Some(t.text())
                    && final(self).index == old(self).index + t.text().len() && t.text().len() > 0
                    && final(self).index <= final(self).input@.len(),
                None => keyword(old(self).input@, old(self).index as int) is None && *final(self) == *old(self),
            },
            final(self).input@ == old(self).input@,
    {
        let words: [&str; 6] = ["endmodule", "module", "output", "assign", "input", "wire"];
        let mut i: usize = 0;
        while i < 6
            invariant
                *self == *old(self),
                words@ == seq!["endmodule", "module", "output", "assign", "input", "wire"],
                forall|k: int| 0 <= k < i ==> !keyword_at(self.input@, self.index as int, (#[trigger] words@[k])@),
            decreases 6 - i,
        {
            let w = words[i];
            let len = self.input.len();
            if self.is_match(w) {
                let n = w.unicode_len();
                proof {
                    reveal_strlit("endmodule");
                    reveal_strlit("module");
                    reveal_strlit("output");
                    reveal_strlit("assign");
                    reveal_strlit("input");
                    reveal_strlit("wire");
                    assert(!keyword_at(self.input@, self.index as int, words@[0]@) || i == 0);
                }
                self.index = self.index + n;
                return Some(Token::Reserved(String::from_str(w)));
            }
            i = i + 1;
        }
        proof {
            assert(!keyword_at(self.input@, self.index as int, words@[5]@));
        }
        None
    }

    /// A punctuation token at the current position, consumed.
    fn consume_reserved_single_token(&mut self) -> (r: Option<Token>)
        requires
            old(self).index < old(self).input@.len(),
        ensures
            match r {
                Some(t) => is_single(old(self).input@[old(self).index as int]) && t.kind_text() == (
                    TokenKind::Reserved,
                    seq![old(self).input@[old(self).index as int]],
                ) && final(self).index == old(self).index + 1,
                None => !is_single(old(self).input@[old(self).index as int]) && *final(self) == *old(self),
            },
            final(self).input@ == old(self).input@,
    {
        let c = self.input[self.index];
        let len = self.input.len();
        let text: &str = if c == '(' { "(" } else if c == ')' { ")" } else if c == '[' { "[" }
            else if c == ']' { "]" } else if c == ':' { ":" } else if c == ';' { ";" }
            else if c == ',' { "," } else if c == '.' { "." } else if c == '=' { "=" }
            else if c == '+' { "+" } else if c == '&' { "&" } else if c == '~' { "~" }
            else if c == '^' { "^" } else { "" };
        proof {
            reveal_strlit("(");
            reveal_strlit(")");
            reveal_strlit("[");
            reveal_strlit("]");
            reveal_strlit(":");
            reveal_strlit(";");
            reveal_strlit(",");
            reveal_strlit(".");
            reveal_strlit("=");
            reveal_strlit("+");
            reveal_strlit("&");
            reveal_strlit("~");
            reveal_strlit("^");
            reveal_strlit("");
        }
        if text.unicode_len() == 0 {
            None
        } else {
            assert(text@ =~= seq![c]);
            self.index = self.index + 1;
            Some(Token::Reserved(String::from_str(text)))
        }
    }

    /// An identifier at the current position, consumed.
    fn consume_identifier_token(&mut self) -> (r: Option<Token>)
        requires
            old(self).index < old(self).input@.len(),
        ensures
            match r {
                Some(t) => is_alpha(old(self).input@[old(self).index as int])
                    && final(self).index == ident_run(old(self).input@, old(self).index as int)
                    && final(self).index > old(self).index && final(self).index <= final(self).input@.len()
                    && t.kind_text() == (TokenKind::Identifier, old(self).input@.subrange(
                        old(self).index as int,
                        final(self).index as int,
                    )),
                None => !is_alpha(old(self).input@[old(self).index as int]) && *final(self) == *old(self),
            },
            final(self).input@ == old(self).input@,
    {
        let head = self.input[self.index];
        if !alpha(head) {
            return None;
        }
        let len = self.input.len();
        let start = self.index;
        let mut name = String::new();
        while self.index < len && ident_char(self.input[self.index])
            invariant
                len == self.input@.len(),
                self.input@ == old(self).input@,
                start == old(self).index,
                start <= self.index <= len,
                name@ == self.input@.subrange(start as int, self.index as int),
                is_alpha(self.input@[start as int]),
                forall|j: int| start <= j < self.index ==> is_ident_char(#[trigger] self.input@[j]),
                ident_run(self.input@, start as int) == ident_run(self.input@, self.index as int),
            decreases len - self.index,
        {
            push_char(&mut name, self.input[self.index]);
            self.index = self.index + 1;
            assert(name@ =~= self.input@.subrange(start as int, self.index as int));
        }
        assert(self.index > start) by {
            assert(is_ident_char(self.input@[start as int]));
        }
        assert forall|j: int| 0 <= j < name@.len() implies is_ident_char(#[trigger] name@[j]) by {
            assert(name@[j] == self.input@[start + j]);
        }
        Some(Token::Identifier(name))
    }

    /// A number at the current position, consumed: digits, and a base mark with its digits.
    fn consume_number_token(&mut self) -> (r: Option<Token>)
        requires
            old(self).index < old(self).input@.len(),
        ensures
            match r {
                Some(t) => is_digit(old(self).input@[old(self).index as int])
                    && final(self).index == number_run(old(self).input@, old(self).index as int)
                    && final(self).index > old(self).index && final(self).index <= final(self).input@.len()
                    && t.kind_text() == (TokenKind::Number, old(self).input@.subrange(
                        old(self).index as int,
                        final(self).index as int,
                    )),
                None => !is_digit(old(self).input@[old(self).index as int]) && *final(self) == *old(self),
            },
            final(self).input@ == old(self).input@,
    {
        let head = self.input[self.index];
        if !digit(head) {
            return None;
        }
        let len = self.input.len();
        let start = self.index;
        let mut number = String::new();
        while self.index < len && (ident_char(self.input[self.index]) || self.input[self.index] == '\'')
            invariant
                len == self.input@.len(),
                self.input@ == old(self).input@,
                start == old(self).index,
                start <= self.index <= len,
                number@ == self.input@.subrange(start as int, self.index as int),
                is_digit(self.input@[start as int]),
                forall|j: int| start <= j < self.index ==> is_number_char(#[trigger] self.input@[j]),
                number_run(self.input@, start as int) == number_run(self.input@, self.index as int),
            decreases len - self.index,
        {
            push_char(&mut number, self.input[self.index]);
            self.index = self.index + 1;
            assert(number@ =~= self.input@.subrange(start as int, self.index as int));
        }
        assert(self.index > start) by {
            assert(is_number_char(self.input@[start as int]));
        }
        assert forall|j: int| 0 <= j < number@.len() implies is_number_char(#[trigger] number@[j]) by {
            assert(number@[j] == self.input@[start + j]);
        }
        Some(Token::Number(number))
    }

    /// The tokens of the input from the current position on: whitespace separates them,
    /// and a character that starts no token is skipped.
    pub fn tokenize(self) -> (r: Vec<Token>)
        requires
            self.index <= self.input@.len(),
        ensures
            token_views(r@) == lex(self.input@, self.index as int),
    {
        let mut lexer = self;
        lexer.scan()
    }

    fn scan(&mut self) -> (r: Vec<Token>)
        requires
            old(self).index <= old(self).input@.len(),
        ensures
            token_views(r@) == lex(old(self).input@, old(self).index as int),
    {
        let ghost s = self.input@;
        let ghost start = self.index as int;
        let mut tokens: Vec<Token> = Vec::new();
        let len = self.input.len();
        assert(token_views(tokens@) + lex(s, start) =~= lex(s, start));
        while self.index < len
            invariant
                len == self.input@.len(),
                self.input@ == s,
                self.index <= len,
                token_views(tokens@) + lex(s, self.index as int) == lex(s, start),
            decreases len - self.index,
        {
            let at = self.index;
            let c = self.input[self.index];
            let ghost before = token_views(tokens@);
            if space(c) {
                self.index = self.index + 1;
            } else {
                let t = match self.consume_reserved_single_token() {
                    Some(t) => Some(t),
                    None => match self.consume_reserved_token() {
                        Some(t) => Some(t),
                        None => match self.consume_identifier_token() {
                            Some(t) => Some(t),
                            None => self.consume_number_token(),
                        },
                    },
                };
                match t {
                    Some(t) => {
                        let ghost tv = t.kind_text();
                        tokens.push(t);
                        assert(token_views(tokens@) =~= before.push(tv));
                        assert(lex(s, at as int) == seq![tv] + lex(s, self.index as int));
                        assert(token_views(tokens@) + lex(s, self.index as int) =~= before + lex(s, at as int));
                    },
                    None => {
                        self.index = self.index + 1;
                    },
                }
            }
        }
        tokens
    }
}

/// A token of this kind and text is one the lexer can produce.
pub open spec fn token_shape(t: (TokenKind, Seq<char>)) -> bool {
    match t.0 {
        TokenKind::Reserved => is_keyword(t.1) || (t.1.len() == 1 && is_single(t.1[0])),
        TokenKind::Identifier => t.1.len() > 0 && is_alpha(t.1[0]) && forall|j: int|
            0 <= j < t.1.len() ==> is_ident_char(#[trigger] t.1[j]),
        TokenKind::Number => t.1.len() > 0 && is_digit(t.1[0]) && forall|j: int|
            0 <= j < t.1.len() ==> is_number_char(#[trigger] t.1[j]),
    }
}

proof fn lemma_ident_run(s: Seq<char>, i: int)
    requires
        0 <= i <= s.len(),
    ensures
        i <= ident_run(s, i) <= s.len(),
        forall|j: int| i <= j < ident_run(s, i) ==> is_ident_char(#[trigger] s[j]),
    decreases s.len() - i,
{
    if i < s.len() && is_ident_char(s[i]) {
        lemma_ident_run(s, i + 1);
    }
}

proof fn lemma_number_run(s: Seq<char>, i: int)
    requires
        0 <= i <= s.len(),
    ensures
        i <= number_run(s, i) <= s.len(),
        forall|j: int| i <= j < number_run(s, i) ==> is_number_char(#[trigger] s[j]),
    decreases s.len() - i,
{
    if i < s.len() && is_number_char(s[i]) {
        lemma_number_run(s, i + 1);
    }
}

/// Every token that the lexer produces is well shaped: a keyword or a punctuation character,
/// an identifier that starts with a letter, or a number that starts with a digit.
pub proof fn lemma_lex_shape(s: Seq<char>, i: int)
    ensures
        forall|k: int| 0 <= k < lex(s, i).len() ==> token_shape(#[trigger] lex(s, i)[k]),
    decreases s.len() - i,
{
    if 0 <= i < s.len() {
        if is_space(s[i]) {
            lemma_lex_shape(s, i + 1);
        } else if is_single(s[i]) {
            lemma_lex_shape(s, i + 1);
            let head = seq![(TokenKind::Reserved, seq![s[i]])];
            assert forall|k: int| 0 <= k < lex(s, i).len() implies token_shape(#[trigger] lex(s, i)[k]) by {
                if k > 0 {
                    assert(lex(s, i)[k] == lex(s, i + 1)[k - 1]);
                }
            }
        } else {
            match keyword(s, i) {
                Some(kw) => {
                    if kw.len() > 0 {
                        lemma_lex_shape(s, i + kw.len());
                        assert forall|k: int| 0 <= k < lex(s, i).len() implies token_shape(#[trigger] lex(s, i)[k]) by {
                            if k > 0 {
                                assert(lex(s, i)[k] == lex(s, i + kw.len())[k - 1]);
                            }
                        }
                    }
                },
                None => {
                    lemma_ident_run(s, i);
                    lemma_number_run(s, i);
                    let e = ident_run(s, i);
                    let f = number_run(s, i);
                    if is_alpha(s[i]) && i < e <= s.len() {
                        lemma_lex_shape(s, e);
                        assert forall|k: int| 0 <= k < lex(s, i).len() implies token_shape(#[trigger] lex(s, i)[k]) by {
                            if k > 0 {
                                assert(lex(s, i)[k] == lex(s, e)[k - 1]);
                            } else {
                                let t = s.subrange(i, e);
                                assert forall|j: int| 0 <= j < t.len() implies is_ident_char(#[trigger] t[j]) by {
                                    assert(t[j] == s[i + j]);
                                }
                            }
                        }
                    } else if is_digit(s[i]) && i < f <= s.len() {
                        lemma_lex_shape(s, f);
                        assert forall|k: int| 0 <= k < lex(s, i).len() implies token_shape(#[trigger] lex(s, i)[k]) by {
                            if k > 0 {
                                assert(lex(s, i)[k] == lex(s, f)[k - 1]);
                            } else {
                                let t = s.subrange(i, f);
                                assert forall|j: int| 0 <= j < t.len() implies is_number_char(#[trigger] t[j]) by {
                                    assert(t[j] == s[i + j]);
                                }
                            }
                        }
                    } else {
                        lemma_lex_shape(s, i + 1);
                    }
                },
            }
        }
    }
}

/// The kinds and texts of a sequence of tokens.
pub open spec fn token_views(ts: Seq<Token>) -> Seq<(TokenKind, Seq<char>)> {
    ts.map_values(|t: Token| t.kind_text())
}

} // verus!
