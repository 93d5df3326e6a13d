//! A reader for whole self-delimiting values: a scalar or a nested list,
//! tokenized from text.

use vstd::prelude::*;

use crate::decimal::{all_digits, digits_val};
use crate::slim_deserialize::FromSlimReaderError;
use crate::strutil::{find_char, lemma_find_char_props, lemma_find_char_skip, spec_find_char,
    substring};

verus! {

/// One decoded value: a scalar or a list of values, possibly nested.
#[derive(Debug)]
pub enum Token {
    Text(String),
    List(Vec<Token>),
}

/// The mathematical shape of a token.
pub enum TokenView {
    Text(Seq<char>),
    List(Seq<TokenView>),
}

/// The shape of a token.
pub open spec fn spec_token_view(t: Token) -> TokenView
    decreases t,
{
    match t {
        Token::Text(s) => TokenView::Text(s@),
        Token::List(ts) => TokenView::List(spec_token_list_view(ts@)),
    }
}

/// The shapes of a vector of tokens.
pub open spec fn spec_token_list_view(ts: Seq<Token>) -> Seq<TokenView>
    decreases ts,
{
    if ts.len() == 0 {
        Seq::empty()
    } else {
        seq![spec_token_view(ts[0])] + spec_token_list_view(ts.skip(1))
    }
}

impl View for Token {
    type V = TokenView;

    open spec fn view(&self) -> TokenView {
        spec_token_view(*self)
    }
}

/// The shapes of a vector of tokens, element by element.
pub proof fn lemma_token_list_view_at(ts: Seq<Token>)
    ensures
        spec_token_list_view(ts).len() == ts.len(),
        forall|i: int|
            0 <= i < ts.len() ==> #[trigger] spec_token_list_view(ts)[i] == spec_token_view(
                ts[i],
            ),
    decreases ts,
{
    if ts.len() > 0 {
        lemma_token_list_view_at(ts.skip(1));
        assert forall|i: int| 0 <= i < ts.len() implies #[trigger] spec_token_list_view(ts)[i]
            == spec_token_view(ts[i]) by {
            if i > 0 {
                assert(ts.skip(1)[i - 1] == ts[i]);
                assert(spec_token_list_view(ts)[i] == spec_token_list_view(ts.skip(1))[i - 1]);
            }
        }
    }
}

/// One token read from position zero: at least one digit, `:`, and then
/// either a bracketed list payload of exactly that many characters or a
/// scalar of exactly that many characters.  A list payload carries its own
/// element count and a closing `]`; characters of the payload after the `]`
/// are discarded.
pub open spec fn spec_parse_token(s: Seq<char>) -> Option<(TokenView, int)>
    decreases s.len(), 0nat,
{
    match spec_find_char(s, ':', 0) {
        None => None,
        Some(i) => {
            if i >= 1 && all_digits(s.take(i)) && digits_val(s.take(i)) <= usize::MAX {
                let n = digits_val(s.take(i)) as int;
                let p = i + 1;
                if p < s.len() && s[p] == '[' {
                    if n >= 1 && p + n <= s.len() {
                        let part = s.subrange(p + 1, p + n);
                        match spec_find_char(part, ':', 0) {
                            None => None,
                            Some(j) => {
                                if 1 <= j && j + 1 <= part.len() && all_digits(part.take(j))
                                    && digits_val(part.take(j)) <= usize::MAX {
                                    let count = digits_val(part.take(j));
                                    match spec_parse_tokens(part.skip(j + 1), count) {
                                        None => None,
                                        Some((ts, q)) => {
                                            if j + 1 + q < part.len() && part[j + 1 + q] == ']' {
                                                Some((TokenView::List(ts), p + n))
                                            } else {
                                                None
                                            }
                                        },
                                    }
                                } else {
                                    None
                                }
                            },
                        }
                    } else {
                        None
                    }
                } else {
                    if p + n <= s.len() {
                        Some((TokenView::Text(s.subrange(p, p + n)), p + n))
                    } else {
                        None
                    }
                }
            } else {
                None
            }
        },
    }
}

/// `n` tokens, each followed by a `:` separator.
pub open spec fn spec_parse_tokens(s: Seq<char>, n: nat) -> Option<(Seq<TokenView>, int)>
    decreases s.len(), 1nat, n,
{
    if n == 0 {
        Some((Seq::empty(), 0))
    } else {
        match spec_parse_token(s) {
            None => None,
            Some((t, p)) => if 0 <= p < s.len() && s[p] == ':' {
                match spec_parse_tokens(s.skip(p + 1), (n - 1) as nat) {
                    None => None,
                    Some((ts, q)) => Some((seq![t] + ts, p + 1 + q)),
                }
            } else {
                None
            },
        }
    }
}

/// A successful token read consumes at least two characters and stays
/// inside the input.
pub proof fn lemma_parse_token_bounds(s: Seq<char>)
    ensures
        match spec_parse_token(s) {
            Some(v) => 2 <= v.1 <= s.len(),
            None => true,
        },
{
    lemma_find_char_props(s, ':', 0);
}

impl Token {
    /// The scalar a token holds; a list is refused.
    pub fn get_string(self) -> (r: Result<String, FromSlimReaderError>)
        ensures
            match self@ {
                TokenView::Text(s) => r is Ok && r->Ok_0@ == s,
                TokenView::List(_) => r is Err,
            },
    {
        match self {
            Token::Text(s) => Ok(s),
            Token::List(_) => {
                let mut m = String::new();
                m.append("Expected a string");
                Err(FromSlimReaderError::Other(m))
            },
        }
    }
}

/// Read one token starting at `pos`.
pub fn parse_token(s: &str, pos: usize) -> (r: Result<(Token, usize), FromSlimReaderError>)
    requires
        pos <= s@.len(),
    ensures
        match spec_parse_token(s@.skip(pos as int)) {
            Some(v) => r is Ok && r->Ok_0.0@ == v.0 && r->Ok_0.1 == pos + v.1,
            None => r is Err,
        },
    decreases s@.len() - pos, 0nat,
{
    let len = s.unicode_len();
    let ghost t = s@.skip(pos as int);
    proof {
        lemma_find_char_skip(s@, ':', pos as int);
        lemma_find_char_props(s@, ':', pos as int);
    }
    let colon = match find_char(s, ':', pos) {
        Some(i) => i,
        None => {
            let mut m = String::new();
            m.append("Expected a digit");
            return Err(FromSlimReaderError::Other(m));
        },
    };
    proof {
        assert(pos <= colon < s@.len());
        assert(t.take(colon - pos) =~= s@.subrange(pos as int, colon as int));
    }
    if colon == pos {
        let mut m = String::new();
        m.append("Expected a digit");
        return Err(FromSlimReaderError::Other(m));
    }
    if !crate::slim_deserialize::check_digits(s, pos, colon) {
        let mut m = String::new();
        m.append("Expected a digit");
        return Err(FromSlimReaderError::Other(m));
    }
    let n = match crate::decimal::parse_digits(s, pos, colon) {
        Some(v) => v,
        None => {
            let mut m = String::new();
            m.append("Expected a digit");
            return Err(FromSlimReaderError::Other(m));
        },
    };
    let p = colon + 1;
    if p < len && s.get_char(p) == '[' {
        proof {
            assert(t[p - pos] == '[');
        }
        if n < 1 || n > len - p {
            let mut m = String::new();
            m.append("String is smaller than expected");
            return Err(FromSlimReaderError::Other(m));
        }
        let part = substring(s, p + 1, p + n);
        proof {
            assert(part@ =~= t.subrange(p - pos + 1, p - pos + n));
        }
        match parse_list_payload(part.as_str()) {
            Ok(tokens) => Ok((Token::List(tokens), p + n)),
            Err(e) => Err(e),
        }
    } else {
        if n > len - p {
            let mut m = String::new();
            m.append("String is smaller than expected");
            return Err(FromSlimReaderError::Other(m));
        }
        let value = substring(s, p, p + n);
        proof {
            assert(value@ =~= t.subrange(p - pos, p - pos + n));
            if p - pos < t.len() {
                assert(t[p - pos] == s@[p as int]);
            }
        }
        Ok((Token::Text(value), p + n))
    }
}

/// Parse the inside of a list payload: the element count, the elements each
/// followed by `:`, and the closing `]`.
fn parse_list_payload(part: &str) -> (r: Result<Vec<Token>, FromSlimReaderError>)
    ensures
        match spec_find_char(part@, ':', 0) {
            None => r is Err,
            Some(j) => {
                if 1 <= j && j + 1 <= part@.len() && all_digits(part@.take(j)) && digits_val(
                    part@.take(j),
                ) <= usize::MAX {
                    match spec_parse_tokens(part@.skip(j + 1), digits_val(part@.take(j))) {
                        None => r is Err,
                        Some((ts, q)) => {
                            if j + 1 + q < part@.len() && part@[j + 1 + q] == ']' {
                                (r is Ok && spec_token_list_view(r->Ok_0@) == ts)
                            } else {
                                r is Err
                            }
                        },
                    }
                } else {
                    r is Err
                }
            },
        },
    decreases part@.len(), 1nat,
{
    let len = part.unicode_len();
    proof {
        lemma_find_char_props(part@, ':', 0);
    }
    let j = match find_char(part, ':', 0) {
        Some(j) => j,
        None => {
            let mut m = String::new();
            m.append("Expected size of list");
            return Err(FromSlimReaderError::Other(m));
        },
    };
    proof {
        assert(part@.take(j as int) =~= part@.subrange(0, j as int));
    }
    if j == 0 || !crate::slim_deserialize::check_digits(part, 0, j) {
        let mut m = String::new();
        m.append("Expected size of list");
        return Err(FromSlimReaderError::Other(m));
    }
    let count = match crate::decimal::parse_digits(part, 0, j) {
        Some(v) => v,
        None => {
            let mut m = String::new();
            m.append("Expected size of list");
            return Err(FromSlimReaderError::Other(m));
        },
    };
    let mut tokens: Vec<Token> = Vec::new();
    let mut cur: usize = j + 1;
    let mut k: usize = 0;
    let ghost base = part@.skip(j + 1);
    proof {
        lemma_token_list_view_at(tokens@);
        vstd::seq_lib::lemma_seq_skip_of_skip(part@, j + 1, 0);
        assert(part@.skip(j + 1).skip(0) =~= base);
    }
    while k < count
        invariant
            j + 1 <= cur <= part@.len(),
            len == part@.len(),
            k <= count,
            tokens.len() == k,
            spec_find_char(part@, ':', 0) == Some(j as int),
            1 <= j,
            j + 1 <= part@.len(),
            all_digits(part@.take(j as int)),
            count == digits_val(part@.take(j as int)),
            base == part@.skip(j + 1),
            match spec_parse_tokens(part@.skip(cur as int), (count - k) as nat) {
                Some(v) => spec_parse_tokens(base, count as nat) == Some(
                    (spec_token_list_view(tokens@) + v.0, cur - (j + 1) + v.1),
                ),
                None => spec_parse_tokens(base, count as nat) is None,
            },
        decreases count - k,
    {
        let ghost pre = part@.skip(cur as int);
        let ghost rest_count = (count - k) as nat;
        proof {
            lemma_parse_token_bounds(pre);
        }
        let (token, p) = match parse_token(part, cur) {
            Ok(v) => v,
            Err(e) => {
                proof {
                    assert(spec_parse_tokens(pre, rest_count) is None);
                }
                return Err(e);
            },
        };
        let p2 = match crate::slim_deserialize::read_expected_char(part, p, ':') {
            Ok(q) => q,
            Err(e) => {
                proof {
                    let sp = spec_parse_token(pre).unwrap();
                    assert(pre[sp.1] == part@[p as int] || sp.1 == pre.len());
                    assert(spec_parse_tokens(pre, rest_count) is None);
                }
                let mut m = String::new();
                m.append("Expected separator :");
                return Err(FromSlimReaderError::Other(m));
            },
        };
        proof {
            let sp = spec_parse_token(pre).unwrap();
            assert(pre[sp.1] == ':');
            vstd::seq_lib::lemma_seq_skip_of_skip(part@, cur as int, sp.1 + 1);
            assert(pre.skip(sp.1 + 1) =~= part@.skip(p2 as int));
        }
        let ghost old_tokens = tokens@;
        tokens.push(token);
        proof {
            lemma_token_list_view_at(tokens@);
            lemma_token_list_view_at(old_tokens);
            assert(tokens@.drop_last() =~= old_tokens);
            assert(spec_token_list_view(tokens@) =~= spec_token_list_view(old_tokens).push(
                token@,
            ));
            let sp = spec_parse_token(pre).unwrap();
            match spec_parse_tokens(part@.skip(p2 as int), (rest_count - 1) as nat) {
                Some(v) => {
                    assert(spec_parse_tokens(pre, rest_count) == Some(
                        (seq![token@] + v.0, sp.1 + 1 + v.1),
                    ));
                    assert(spec_token_list_view(old_tokens) + (seq![token@] + v.0)
                        =~= spec_token_list_view(tokens@) + v.0);
                },
                None => {
                    assert(spec_parse_tokens(pre, rest_count) is None);
                },
            }
        }
        cur = p2;
        k += 1;
    }
    proof {
        assert(spec_parse_tokens(part@.skip(cur as int), 0) == Some(
            (Seq::<TokenView>::empty(), 0int),
        ));
        assert(spec_token_list_view(tokens@) + Seq::<TokenView>::empty() =~= spec_token_list_view(
            tokens@,
        ));
    }
    match crate::slim_deserialize::read_expected_char(part, cur, ']') {
        Ok(_) => Ok(tokens),
        Err(e) => {
            proof {
                let sl = spec_parse_tokens(base, count as nat).unwrap();
                assert(cur == j + 1 + sl.1);
            }
            let mut m = String::new();
            m.append("Expected list terminator");
            Err(FromSlimReaderError::Other(m))
        },
    }
}

/// A stream of tokens read one after another from text.
pub struct Tokenizer {
    input: String,
    pos: usize,
}

impl Tokenizer {
    /// Whether the cursor is inside the input.
    pub closed spec fn wf(&self) -> bool {
        self.pos <= self.input@.len()
    }

    /// The text still to be tokenized.
    pub closed spec fn remaining(&self) -> Seq<char> {
        self.input@.skip(self.pos as int)
    }

    /// Tokenize text from its start.
    pub fn new(input: String) -> (r: Tokenizer)
        ensures
            r.wf(),
            r.remaining() == input@,
    {
        let t = Tokenizer { input, pos: 0 };
        proof {
            assert(t.input@.skip(0) =~= t.input@);
        }
        t
    }

    /// The next token: `None` at the end of the input.
    pub fn next_token(&mut self) -> (r: Option<Result<Token, FromSlimReaderError>>)
        requires
            old(self).wf(),
        ensures
            final(self).wf(),
            old(self).remaining().len() == 0 ==> (r is None && *final(self) == *old(self)),
            old(self).remaining().len() > 0 ==> match spec_parse_token(old(self).remaining()) {
                Some(v) => (r matches Some(t) && (t matches Ok(token) && token@ == v.0)
                    && final(self).remaining() == old(self).remaining().skip(v.1)),
                None => (r matches Some(t) && t is Err),
            },
    {
        let len = self.input.as_str().unicode_len();
        if self.pos >= len {
            return None;
        }
        proof {
            lemma_parse_token_bounds(self.remaining());
        }
        match parse_token(self.input.as_str(), self.pos) {
            Ok((token, p)) => {
                let ghost pre = self.remaining();
                let ghost sp = spec_parse_token(pre).unwrap();
                self.pos = p;
                proof {
                    vstd::seq_lib::lemma_seq_skip_of_skip(self.input@, old(self).pos as int, sp.1);
                    assert(self.remaining() =~= pre.skip(sp.1));
                }
                Some(Ok(token))
            },
            Err(e) => Some(Err(e)),
        }
    }

    /// All the tokens in the input, or the first failure.
    pub fn collect_all(&mut self) -> (r: Result<Vec<Token>, FromSlimReaderError>)
        requires
            old(self).wf(),
        ensures
            final(self).wf(),
    {
        let mut tokens: Vec<Token> = Vec::new();
        loop
            invariant
                self.wf(),
            ensures
                self.wf(),
            decreases self.remaining().len(),
        {
            proof {
                lemma_parse_token_bounds(self.remaining());
            }
            match self.next_token() {
                None => {
                    break ;
                },
                Some(Ok(token)) => {
                    tokens.push(token);
                },
                Some(Err(e)) => {
                    return Err(e);
                },
            }
        }
        Ok(tokens)
    }
}

} // verus!
