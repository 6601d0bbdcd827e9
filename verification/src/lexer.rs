use vstd::prelude::*;
use vstd::string::*;

verus! {

/// The markup tokens the document tokenizer tells apart.
#[derive(Debug, Clone, Copy, PartialEq, Eq, Structural)]
pub enum Token {
    Begin,
    End,
    LeftCurlyBrace,
    RightCurlyBrace,
    EndLine,
    Backslash,
    Percent,
    Error,
}

pub open spec fn begin_pat() -> Seq<char> {
    seq!['\\', 'b', 'e', 'g', 'i', 'n']
}

pub open spec fn end_pat() -> Seq<char> {
    seq!['\\', 'e', 'n', 'd']
}

pub open spec fn endline_pat() -> Seq<char> {
    seq!['\\', 'n']
}

/// Whether `p` occurs in `s` starting at position `i`.
pub open spec fn has_prefix(s: Seq<char>, i: int, p: Seq<char>) -> bool {
    &&& 0 <= i
    &&& i + p.len() <= s.len()
    &&& s.subrange(i, i + p.len()) == p
}

/// The token starting at position `i`, and how many characters it spans.
/// The longest pattern wins, as a scanner generator would have it.
pub open spec fn token_at(s: Seq<char>, i: int) -> (Token, int) {
    if has_prefix(s, i, begin_pat()) {
        (Token::Begin, 6)
    } else if has_prefix(s, i, end_pat()) {
        (Token::End, 4)
    } else if has_prefix(s, i, endline_pat()) {
        (Token::EndLine, 2)
    } else if s[i] == '\\' {
        (Token::Backslash, 1)
    } else if s[i] == '{' {
        (Token::LeftCurlyBrace, 1)
    } else if s[i] == '}' {
        (Token::RightCurlyBrace, 1)
    } else if s[i] == '%' {
        (Token::Percent, 1)
    } else {
        (Token::Error, 1)
    }
}

/// The token stream from position `i` to the end.
pub open spec fn tokens_from(s: Seq<char>, i: int) -> Seq<Token>
    decreases s.len() - i,
{
    if !(0 <= i < s.len()) {
        Seq::empty()
    } else {
        let t = token_at(s, i).0;
        let l = token_at(s, i).1;
        seq![t] + tokens_from(s, i + l)
    }
}

/// Whether the pattern `p` occurs at position `i` of `s`.
fn match_at(s: &Vec<char>, i: usize, p: &str) -> (r: bool)
    requires
        i <= s@.len(),
    ensures
        r == has_prefix(s@, i as int, p@),
{
    let n = p.unicode_len();
    if n > s.len() - i {
        proof {
            assert(!has_prefix(s@, i as int, p@));
        }
        return false;
    }
    let mut k: usize = 0;
    while k < n
        invariant
            k <= n == p@.len(),
            i + n <= s@.len() <= usize::MAX,
            forall|a: int| 0 <= a < k ==> s@[i + a] == p@[a],
        decreases n - k,
    {
        if s[i + k] != p.get_char(k) {
            proof {
                assert(s@.subrange(i as int, i + p@.len())[k as int] != p@[k as int]);
            }
            return false;
        }
        k = k + 1;
    }
    proof {
        assert(s@.subrange(i as int, i + p@.len()) =~= p@);
    }
    true
}

/// Scans the whole document into its token stream.
pub fn tokenize(s: &Vec<char>) -> (r: Vec<Token>)
    ensures
        r@ == tokens_from(s@, 0),
{
    proof {
        reveal_strlit("\\begin");
        reveal_strlit("\\end");
        reveal_strlit("\\n");
        assert("\\begin"@ =~= begin_pat());
        assert("\\end"@ =~= end_pat());
        assert("\\n"@ =~= endline_pat());
    }
    let mut r: Vec<Token> = Vec::new();
    let mut i: usize = 0;
    proof {
        assert(tokens_from(s@, 0) =~= r@ + tokens_from(s@, 0));
    }
    while i < s.len()
        invariant
            i <= s@.len(),
            "\\begin"@ == begin_pat(),
            "\\end"@ == end_pat(),
            "\\n"@ == endline_pat(),
            tokens_from(s@, 0) == r@ + tokens_from(s@, i as int),
        decreases s@.len() - i,
    {
        let (t, step): (Token, usize) = if match_at(s, i, "\\begin") {
            (Token::Begin, 6)
        } else if match_at(s, i, "\\end") {
            (Token::End, 4)
        } else if match_at(s, i, "\\n") {
            (Token::EndLine, 2)
        } else if s[i] == '\\' {
            (Token::Backslash, 1)
        } else if s[i] == '{' {
            (Token::LeftCurlyBrace, 1)
        } else if s[i] == '}' {
            (Token::RightCurlyBrace, 1)
        } else if s[i] == '%' {
            (Token::Percent, 1)
        } else {
            (Token::Error, 1)
        };
        proof {
            assert((t, step as int) == token_at(s@, i as int));
            assert(tokens_from(s@, i as int) == seq![t] + tokens_from(s@, i + step));
        }
        r.push(t);
        proof {
            assert(tokens_from(s@, 0) =~= r@ + tokens_from(s@, i + step));
        }
        i = i + step;
    }
    r
}

} // verus!
