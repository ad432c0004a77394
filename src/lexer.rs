use vstd::prelude::*;
use vstd::string::{StrSliceExecFns, StringSliceAdditionalSpecFns};

verus! {

/// Operators and keywords of the language.
#[derive(Clone, Copy, Debug, PartialEq, Eq, Structural)]
pub enum Token {
    Equals,
    Plus,
    Minus,
    Asterix,
    Slash,
    SemiColon,
    Colon,
    Dot,
    ParOpen,
    ParClose,
    Lt,
    Gt,
    LtOrEq,
    GtOrEq,
    LineBreak,
    Print,
}

/// A literal as the parser hands it over. A number is held as the bit
/// pattern of its IEEE-754 double; text as its UTF-8 bytes.
#[derive(Clone, Debug, PartialEq)]
pub enum Literal {
    String(Vec<u8>),
    Num(u64),
    Bool(bool),
    Nil,
    Variable(Vec<u8>),
}

/// Why source text could not be split into tokens; each carries a character offset.
#[derive(Clone, Debug, PartialEq)]
pub enum LexErr<'a> {
    MismatchedQuotes(i32),
    UnknownToken(i32, &'a str),
}

/// A character that may start an identifier.
pub open spec fn ident_start(c: char) -> bool {
    ('a' <= c && c <= 'z') || ('A' <= c && c <= 'Z') || c == '_'
}

/// A character that may stand in an identifier after the first.
pub open spec fn ident_char(c: char) -> bool {
    ident_start(c) || ('1' <= c && c <= '9')
}

/// A non-empty run of identifier characters that starts with a letter or `_`.
pub open spec fn spec_is_identifier(s: Seq<char>) -> bool {
    &&& s.len() > 0
    &&& ident_start(s[0])
    &&& forall|i: int| 0 <= i < s.len() ==> ident_char(#[trigger] s[i])
}

/// Whether the text is an identifier.
pub fn is_identifier(val: &str) -> (r: bool)
    ensures
        r == spec_is_identifier(val@),
{
    let n = val.unicode_len();
    if n == 0 {
        return false;
    }
    let c0 = val.get_char(0);
    if !(('a' <= c0 && c0 <= 'z') || ('A' <= c0 && c0 <= 'Z') || c0 == '_') {
        return false;
    }
    let mut i: usize = 0;
    while i < n
        invariant
            n == val@.len(),
            i <= n,
            forall|j: int| 0 <= j < i ==> ident_char(#[trigger] val@[j]),
        decreases n - i,
    {
        let c = val.get_char(i);
        if !(('a' <= c && c <= 'z') || ('A' <= c && c <= 'Z') || c == '_' || ('1' <= c && c <= '9')) {
            return false;
        }
        i = i + 1;
    }
    true
}

/// A character that may stand in a number.
pub open spec fn num_char(c: char) -> bool {
    ('1' <= c && c <= '9') || c == '.' || c == 'e'
}

/// Digits 1 to 9 with at most one `.` and at most one `e`, neither at either
/// end, and never `.` and `e` side by side.
pub open spec fn spec_is_number(s: Seq<char>) -> bool {
    &&& s.len() > 0
    &&& s[0] != '.' && s[0] != 'e'
    &&& s[s.len() - 1] != '.' && s[s.len() - 1] != 'e'
    &&& forall|i: int| 0 <= i < s.len() ==> num_char(#[trigger] s[i])
    &&& forall|i: int, j: int| 0 <= i < j < s.len() && #[trigger] s[i] == '.' ==> #[trigger] s[j] != '.'
    &&& forall|i: int, j: int| 0 <= i < j < s.len() && #[trigger] s[i] == 'e' ==> #[trigger] s[j] != 'e'
    &&& forall|i: int| 0 < i < s.len() ==> !(#[trigger] s[i] == '.' && s[i - 1] == 'e') && !(s[i] == 'e' && s[i - 1] == '.')
}

/// Whether the text is a number.
pub fn is_number(val: &str) -> (r: bool)
    ensures
        r == spec_is_number(val@),
{
    let n = val.unicode_len();
    if n == 0 {
        return false;
    }
    let c0 = val.get_char(0);
    if c0 == '.' || c0 == 'e' {
        return false;
    }
    let mut num_dots: usize = 0;
    let mut num_e: usize = 0;
    let mut prev_dot = false;
    let mut prev_e = false;
    let mut i: usize = 0;
    let ghost s = val@;
    while i < n
        invariant
            n == s.len(),
            s == val@,
            i <= n,
            s[0] != '.' && s[0] != 'e',
            forall|j: int| 0 <= j < i ==> num_char(#[trigger] s[j]),
            num_dots <= 1,
            num_e <= 1,
            num_dots == 0 ==> forall|j: int| 0 <= j < i ==> #[trigger] s[j] != '.',
            num_dots == 1 ==> exists|j: int| 0 <= j < i && #[trigger] s[j] == '.',
            num_e == 0 ==> forall|j: int| 0 <= j < i ==> #[trigger] s[j] != 'e',
            num_e == 1 ==> exists|j: int| 0 <= j < i && #[trigger] s[j] == 'e',
            forall|a: int, b: int| 0 <= a < b < i && #[trigger] s[a] == '.' ==> #[trigger] s[b] != '.',
            forall|a: int, b: int| 0 <= a < b < i && #[trigger] s[a] == 'e' ==> #[trigger] s[b] != 'e',
            forall|j: int| 0 < j < i ==> !(#[trigger] s[j] == '.' && s[j - 1] == 'e') && !(s[j] == 'e' && s[j - 1] == '.'),
            i > 0 ==> (prev_dot == (s[i - 1] == '.') && prev_e == (s[i - 1] == 'e')),
            i == 0 ==> !prev_dot && !prev_e,
        decreases n - i,
    {
        let c = val.get_char(i);
        if '1' <= c && c <= '9' {
            prev_dot = false;
            prev_e = false;
        } else if c == '.' {
            if num_dots >= 1 || prev_e {
                if num_dots >= 1 {
                    proof {
                        let j = choose|j: int| 0 <= j < i && #[trigger] s[j] == '.';
                        assert(s[j] == '.' && s[i as int] == '.');
                    }
                }
                return false;
            }
            num_dots = num_dots + 1;
            prev_dot = true;
            prev_e = false;
        } else if c == 'e' {
            if num_e >= 1 || prev_dot {
                if num_e >= 1 {
                    proof {
                        let j = choose|j: int| 0 <= j < i && #[trigger] s[j] == 'e';
                        assert(s[j] == 'e' && s[i as int] == 'e');
                    }
                }
                return false;
            }
            num_e = num_e + 1;
            prev_e = true;
            prev_dot = false;
        } else {
            proof {
                assert(!num_char(s[i as int]));
            }
            return false;
        }
        i = i + 1;
    }
    if prev_dot || prev_e {
        return false;
    }
    true
}

/// The number of spaces at the start of the text.
pub open spec fn lead_spaces(s: Seq<char>) -> nat
    decreases s.len(),
{
    if s.len() > 0 && s[0] == ' ' { 1 + lead_spaces(s.drop_first()) } else { 0 }
}

/// The number of spaces at the end of the text.
pub open spec fn trail_spaces(s: Seq<char>) -> nat
    decreases s.len(),
{
    if s.len() > 0 && s.last() == ' ' { 1 + trail_spaces(s.drop_last()) } else { 0 }
}

/// Where `trim` cuts: after the leading spaces and before the trailing ones;
/// a text of spaces only loses its last character.
pub open spec fn trim_bounds(s: Seq<char>) -> (int, int) {
    if s.len() == 0 {
        (0, 0)
    } else if lead_spaces(s) == s.len() {
        (0, s.len() - 1)
    } else {
        (lead_spaces(s) as int, s.len() - trail_spaces(s))
    }
}

proof fn lemma_lead(s: Seq<char>, i: int)
    requires
        0 <= i <= s.len(),
        forall|j: int| 0 <= j < i ==> #[trigger] s[j] == ' ',
        i == s.len() || s[i] != ' ',
    ensures
        lead_spaces(s) == i,
    decreases i,
{
    if i > 0 {
        lemma_lead(s.drop_first(), i - 1);
    }
}

proof fn lemma_trail(s: Seq<char>, k: int)
    requires
        0 <= k <= s.len(),
        forall|j: int| 0 <= j < k ==> #[trigger] s[s.len() - 1 - j] == ' ',
        k == s.len() || s[s.len() - 1 - k] != ' ',
    ensures
        trail_spaces(s) == k,
    decreases k,
{
    if k > 0 {
        let t = s.drop_last();
        assert forall|j: int| 0 <= j < k - 1 implies #[trigger] t[t.len() - 1 - j] == ' ' by {
            assert(t[t.len() - 1 - j] == s[s.len() - 1 - (j + 1)]);
        }
        lemma_trail(t, k - 1);
    }
}

/// Cuts the spaces off both ends; gives the rest with its start and end offsets.
pub fn trim<'a>(val: &'a str) -> (r: (&'a str, i32, i32))
    requires
        val@.len() < i32::MAX,
    ensures
        r.1 == trim_bounds(val@).0,
        r.2 == trim_bounds(val@).1,
        r.0@ == val@.subrange(r.1 as int, r.2 as int),
        0 <= r.1 <= r.2 <= val@.len(),
{
    let n = val.unicode_len();
    if n == 0 {
        proof {
            assert(val@.subrange(0, 0) =~= val@);
        }
        return (val, 0, 0);
    }
    let mut start: usize = 0;
    while start < n && val.get_char(start) == ' '
        invariant
            n == val@.len(),
            start <= n,
            forall|j: int| 0 <= j < start ==> #[trigger] val@[j] == ' ',
        decreases n - start,
    {
        start = start + 1;
    }
    proof {
        lemma_lead(val@, start as int);
    }
    if start == n {
        let r = val.substring_char(0, n - 1);
        return (r, 0, (n - 1) as i32);
    }
    let mut k: usize = 0;
    while k < n && val.get_char(n - 1 - k) == ' '
        invariant
            n == val@.len(),
            k <= n,
            forall|j: int| 0 <= j < k ==> #[trigger] val@[n - 1 - j] == ' ',
        decreases n - k,
    {
        k = k + 1;
    }
    proof {
        lemma_trail(val@, k as int);
        assert(val@[start as int] != ' ');
        assert(k < n - start) by {
            if k >= n - start {
                assert(val@[n - 1 - (n - 1 - start)] == ' ');
            }
        }
    }
    let r = val.substring_char(start, n - k);
    (r, start as i32, (n - k) as i32)
}

fn str_eq(a: &str, b: &str) -> (r: bool)
    ensures
        r == (a@ == b@),
{
    let n = a.unicode_len();
    if n != b.unicode_len() {
        return false;
    }
    let mut i: usize = 0;
    while i < n
        invariant
            n == a@.len(),
            n == b@.len(),
            i <= n,
            forall|j: int| 0 <= j < i ==> a@[j] == b@[j],
        decreases n - i,
    {
        if a.get_char(i) != b.get_char(i) {
            return false;
        }
        i = i + 1;
    }
    proof {
        assert(a@ =~= b@);
    }
    true
}

/// The token of the first entry of the table whose text is `trimmed`.
pub open spec fn first_token(tokens: Seq<(&str, Token)>, t: Seq<char>) -> Option<Token>
    decreases tokens.len(),
{
    if tokens.len() == 0 {
        None
    } else if tokens[0].0@ == t {
        Some(tokens[0].1)
    } else {
        first_token(tokens.drop_first(), t)
    }
}

/// Looks the text up in a table of operator spellings.
pub fn is_operator(tokens: &Vec<(&str, Token)>, trimmed: &str) -> (r: Option<Token>)
    ensures
        r == first_token(tokens@, trimmed@),
{
    let mut i: usize = 0;
    proof {
        assert(tokens@.subrange(0, tokens@.len() as int) =~= tokens@);
    }
    while i < tokens.len()
        invariant
            i <= tokens@.len(),
            first_token(tokens@, trimmed@) == first_token(tokens@.subrange(i as int, tokens@.len() as int), trimmed@),
        decreases tokens@.len() - i,
    {
        let ghost rest = tokens@.subrange(i as int, tokens@.len() as int);
        proof {
            assert(rest.drop_first() =~= tokens@.subrange(i + 1, tokens@.len() as int));
        }
        if str_eq(tokens[i].0, trimmed) {
            return Some(tokens[i].1);
        }
        i = i + 1;
    }
    None
}

/// A piece of source text: inside quotes, or between them; with its offset.
#[derive(Clone, Debug, PartialEq)]
pub enum PreLexed<'a> {
    String(&'a str, i32),
    Rest(&'a str, i32),
}

/// Whether the character before `i` makes a quote at `i` literal: a backslash
/// does, and so does a literal quote after one.
pub open spec fn escaped(s: Seq<char>, i: int) -> bool
    decreases i,
{
    if i <= 0 {
        false
    } else if s[i - 1] == '\\' {
        true
    } else {
        s[i - 1] == '"' && escaped(s, i - 1)
    }
}

/// The offsets of the quotes that open or close a string, before `n`.
pub open spec fn quotes(s: Seq<char>, n: int) -> Seq<int>
    decreases n,
{
    if n <= 0 {
        seq![]
    } else if s[n - 1] == '"' && !escaped(s, n - 1) {
        quotes(s, n - 1).push(n - 1)
    } else {
        quotes(s, n - 1)
    }
}

/// Where the piece after the first `k` quotes starts.
pub open spec fn piece_start(q: Seq<int>, k: int) -> int {
    if k == 0 { 0 } else { q[k - 1] + 1 }
}

/// Whether `p` is the piece `(is_string, text, offset)` of `s` between the
/// quotes `k - 1` and `k`.
pub open spec fn is_piece(p: PreLexed, s: Seq<char>, q: Seq<int>, k: int) -> bool {
    let from = piece_start(q, k);
    match p {
        PreLexed::String(t, at) => k % 2 == 1 && t@ == s.subrange(from, q[k]) && at == from,
        PreLexed::Rest(t, at) => k % 2 == 0 && t@ == s.subrange(from, q[k]) && at == from,
    }
}

proof fn lemma_quotes_bound(s: Seq<char>, n: int)
    ensures
        forall|k: int| 0 <= k < quotes(s, n).len() ==> 0 <= #[trigger] quotes(s, n)[k] < n,
    decreases n,
{
    if n > 0 {
        lemma_quotes_bound(s, n - 1);
        let q = quotes(s, n - 1);
        assert forall|k: int| 0 <= k < quotes(s, n).len() implies 0 <= #[trigger] quotes(s, n)[k] < n by {
            if k < q.len() {
                assert(quotes(s, n)[k] == q[k]);
            }
        }
    }
}

/// Splits the text at the quotes that are not escaped: pieces outside quotes
/// and inside them alternate, starting and ending outside. An odd number of
/// such quotes fails at the last one.
pub fn pre_lex<'a>(query: &'a str) -> (r: Result<Vec<PreLexed<'a>>, LexErr<'a>>)
    requires
        query@.len() < i32::MAX,
    ensures
        quotes(query@, query@.len() as int).len() % 2 == 1 <==> r is Err,
        r matches Err(e) ==> e == LexErr::MismatchedQuotes(quotes(query@, query@.len() as int).last() as i32),
        r matches Ok(v) ==> {
            let q = quotes(query@, query@.len() as int);
            let m = q.len() as int;
            &&& v@.len() == m + 1
            &&& forall|k: int| 0 <= k < m ==> is_piece(#[trigger] v@[k], query@, q, k)
            &&& v@[m] == PreLexed::Rest(v@[m]->Rest_0, piece_start(q, m) as i32)
            &&& v@[m]->Rest_0@ == query@.subrange(piece_start(q, m), query@.len() as int)
        },
{
    let ghost s = query@;
    let n = query.unicode_len();
    let mut pre_lexed: Vec<PreLexed<'a>> = Vec::new();
    let mut in_quote = false;
    let mut start: usize = 0;
    let mut skip_next = false;
    let mut i: usize = 0;
    while i < n
        invariant
            n == s.len(),
            s == query@,
            n < i32::MAX,
            i <= n,
            skip_next == escaped(s, i as int),
            in_quote == (quotes(s, i as int).len() % 2 == 1),
            start as int == piece_start(quotes(s, i as int), quotes(s, i as int).len() as int),
            start <= i,
            pre_lexed@.len() == quotes(s, i as int).len(),
            forall|k: int| 0 <= k < pre_lexed@.len() ==> is_piece(#[trigger] pre_lexed@[k], s, quotes(s, i as int), k),
        decreases n - i,
    {
        let c = query.get_char(i);
        let ghost q = quotes(s, i as int);
        if c == '\\' {
            skip_next = true;
        } else if c == '"' {
            if !skip_next {
                in_quote = !in_quote;
                let piece = query.substring_char(start, i);
                if in_quote {
                    pre_lexed.push(PreLexed::Rest(piece, start as i32));
                } else {
                    pre_lexed.push(PreLexed::String(piece, start as i32));
                }
                start = i + 1;
                proof {
                    let q2 = quotes(s, i + 1);
                    assert(q2 == q.push(i as int));
                    assert forall|k: int| 0 <= k < pre_lexed@.len() implies is_piece(#[trigger] pre_lexed@[k], s, q2, k) by {
                        if k < q.len() {
                            assert(pre_lexed@[k] == old_piece(pre_lexed@, k));
                            assert(q2[k] == q[k]);
                            if k > 0 {
                                assert(q2[k - 1] == q[k - 1]);
                            }
                        }
                    }
                }
            }
            skip_next = skip_next;
        } else {
            skip_next = false;
        }
        i = i + 1;
    }
    let ghost q = quotes(s, n as int);
    if in_quote {
        proof {
            lemma_quotes_bound(s, n as int);
            assert(q.len() > 0);
            assert(q[q.len() - 1] >= 0);
            assert(start as int - 1 == q.last());
        }
        return Err(LexErr::MismatchedQuotes((start - 1) as i32));
    }
    let rest = query.substring_char(start, n);
    pre_lexed.push(PreLexed::Rest(rest, start as i32));
    proof {
        assert forall|k: int| 0 <= k < q.len() implies is_piece(#[trigger] pre_lexed@[k], s, q, k) by {
            assert(pre_lexed@[k] == old_piece(pre_lexed@, k));
        }
    }
    Ok(pre_lexed)
}

spec fn old_piece<'a>(v: Seq<PreLexed<'a>>, k: int) -> PreLexed<'a> {
    v[k]
}

/// A token with its character offset. A number keeps its text: its value is
/// a double, which the host reads from it.
#[derive(Clone, Debug, PartialEq)]
pub enum Lexed<'a> {
    Literal(Literal, i32),
    Number(&'a str, i32),
    Operator(Token, i32),
    Identifier(&'a str, i32),
}

/// The mathematical form of a token.
pub enum LexedV {
    Text(Seq<u8>, int),
    Number(Seq<char>, int),
    Operator(Token, int),
    Identifier(Seq<char>, int),
}

pub open spec fn lexed_view(l: Lexed) -> LexedV {
    match l {
        Lexed::Literal(Literal::String(b), p) => LexedV::Text(b@, p as int),
        Lexed::Literal(_, p) => LexedV::Text(seq![], p as int),
        Lexed::Number(t, p) => LexedV::Number(t@, p as int),
        Lexed::Operator(t, p) => LexedV::Operator(t, p as int),
        Lexed::Identifier(t, p) => LexedV::Identifier(t@, p as int),
    }
}

/// The tokens of an unquoted piece `v` at offset `pos`, from `offset` on, where
/// the window `[offset, len - r)` is the next one to try. The longest window
/// whose trimmed text is an operator, an identifier or a number gives the
/// next token, and scanning goes on after it; a trimmed text of at most one
/// character that is none of these is an unknown token; a longer one makes
/// the window shrink by one. Scanning ends at the end of the piece, at an
/// empty window, or at a window of a single space.
pub open spec fn scan(tokens: Seq<(&str, Token)>, v: Seq<char>, pos: int, offset: int, r: int) -> Result<Seq<LexedV>, (int, Seq<char>)>
    decreases v.len() - offset, v.len() - offset - r,
{
    if offset < 0 || r < 0 || offset >= v.len() || v.len() - r - offset <= 0 {
        Ok(seq![])
    } else {
        let curr = v.subrange(offset, v.len() - r);
        let (ts, te) = trim_bounds(curr);
        let t = curr.subrange(ts, te);
        let apos = pos + ts + offset;
        if curr.len() == 1 && curr[0] == ' ' {
            Ok(seq![])
        } else {
            let tok = match first_token(tokens, t) {
                Some(op) => Some(LexedV::Operator(op, apos)),
                None => if spec_is_identifier(t) {
                    Some(LexedV::Identifier(t, apos))
                } else if spec_is_number(t) {
                    Some(LexedV::Number(t, apos))
                } else {
                    None
                },
            };
            match tok {
                Some(x) => if te >= 1 {
                    match scan(tokens, v, pos, offset + te, 0) {
                        Ok(more) => Ok(seq![x] + more),
                        Err(e) => Err(e),
                    }
                } else {
                    Ok(seq![x])
                },
                None => if t.len() <= 1 {
                    Err((apos, t))
                } else {
                    scan(tokens, v, pos, offset, r + 1)
                },
            }
        }
    }
}

/// The tokens of the pieces, in order: each quoted piece is a string literal,
/// each unquoted piece is scanned. The first unknown token ends it.
pub open spec fn spec_tokenize(tokens: Seq<(&str, Token)>, pieces: Seq<PreLexed>) -> Result<Seq<LexedV>, (int, Seq<char>)>
    decreases pieces.len(),
{
    if pieces.len() == 0 {
        Ok(seq![])
    } else {
        match spec_tokenize(tokens, pieces.drop_last()) {
            Err(e) => Err(e),
            Ok(front) => match pieces.last() {
                PreLexed::String(t, p) => Ok(front + seq![LexedV::Text(t.spec_bytes(), p as int)]),
                PreLexed::Rest(t, p) => match scan(tokens, t@, p as int, 0, 0) {
                    Err(e) => Err(e),
                    Ok(more) => Ok(front + more),
                },
            },
        }
    }
}

pub open spec fn lexed_views(v: Seq<Lexed>) -> Seq<LexedV> {
    v.map_values(|l: Lexed| lexed_view(l))
}

fn push_token<'a>(out: &mut Vec<Lexed<'a>>, x: Lexed<'a>)
    ensures
        lexed_views(final(out)@) == lexed_views(old(out)@) + seq![lexed_view(x)],
{
    out.push(x);
    proof {
        assert(lexed_views(final(out)@) =~= lexed_views(old(out)@) + seq![lexed_view(x)]);
    }
}

/// Scans an unquoted piece at offset `pos` and appends its tokens.
fn scan_piece<'a>(tokens: &Vec<(&str, Token)>, val: &'a str, pos: i32, out: &mut Vec<Lexed<'a>>) -> (r: Result<(), LexErr<'a>>)
    requires
        0 <= pos,
        pos + val@.len() < i32::MAX,
    ensures
        match scan(tokens@, val@, pos as int, 0, 0) {
            Ok(more) => r is Ok && lexed_views(final(out)@) == lexed_views(old(out)@) + more,
            Err((at, t)) => r matches Err(LexErr::UnknownToken(a, u)) && a == at && u@ == t,
        },
{
    let n = val.unicode_len();
    let mut offset: usize = 0;
    let mut r: usize = 0;
    let ghost v = val@;
    let ghost mut produced: Seq<LexedV> = seq![];
    while offset < n
        invariant
            n == v.len(),
            v == val@,
            0 <= pos,
            pos + n < i32::MAX,
            offset + r <= n,
            lexed_views(out@) == lexed_views(old(out)@) + produced,
            scan(tokens@, v, pos as int, 0, 0) == match scan(tokens@, v, pos as int, offset as int, r as int) {
                Ok(m) => Ok(produced + m),
                Err(e) => Err::<Seq<LexedV>, (int, Seq<char>)>(e),
            },
        decreases n - offset, n - offset - r,
    {
        if n - r - offset == 0 {
            proof {
                assert(produced + seq![] =~= produced);
            }
            return Ok(());
        }
        let curr = val.substring_char(offset, n - r);
        let trimmed = trim(curr);
        let apos: i32 = pos + trimmed.1 + offset as i32;
        if curr.unicode_len() == 1 && curr.get_char(0) == ' ' {
            proof {
                assert(produced + seq![] =~= produced);
            }
            return Ok(());
        }
        let t = trimmed.0;
        let tok: Option<Lexed<'a>> = match is_operator(tokens, t) {
            Some(op) => Some(Lexed::Operator(op, apos)),
            None => if is_identifier(t) {
                Some(Lexed::Identifier(t, apos))
            } else if is_number(t) {
                Some(Lexed::Number(t, apos))
            } else {
                None
            },
        };
        match tok {
            Some(x) => {
                push_token(out, x);
                proof {
                    let ghost before = produced;
                    produced = produced + seq![lexed_view(x)];
                    if let Ok(m) = scan(tokens@, v, pos as int, offset + trimmed.2, 0) {
                        assert(before + (seq![lexed_view(x)] + m) =~= produced + m);
                    }
                }
                if trimmed.2 == 0 {
                    proof {
                        assert(produced + seq![] =~= produced);
                    }
                    return Ok(());
                }
                offset = offset + trimmed.2 as usize;
                r = 0;
            },
            None => {
                if t.unicode_len() <= 1 {
                    return Err(LexErr::UnknownToken(apos, t));
                }
                r = r + 1;
            },
        }
    }
    proof {
        assert(produced + seq![] =~= produced);
    }
    Ok(())
}

/// Turns the pieces of `pre_lex` into tokens with `tokens` as the table of
/// operator spellings.
pub fn tokenize<'a>(tokens: &Vec<(&str, Token)>, pre_lexed: &Vec<PreLexed<'a>>) -> (r: Result<Vec<Lexed<'a>>, LexErr<'a>>)
    requires
        forall|i: int| 0 <= i < pre_lexed@.len() ==> (#[trigger] pre_lexed@[i] matches PreLexed::Rest(t, p) ==> 0 <= p && p + t@.len() < i32::MAX),
    ensures
        match spec_tokenize(tokens@, pre_lexed@) {
            Ok(all) => r is Ok && lexed_views(r->Ok_0@) == all,
            Err((at, t)) => r matches Err(LexErr::UnknownToken(a, u)) && a == at && u@ == t,
        },
{
    let mut lexed: Vec<Lexed<'a>> = Vec::new();
    let mut i: usize = 0;
    proof {
        assert(lexed_views(lexed@) =~= seq![]);
    }
    while i < pre_lexed.len()
        invariant
            i <= pre_lexed@.len(),
            forall|j: int| 0 <= j < pre_lexed@.len() ==> (#[trigger] pre_lexed@[j] matches PreLexed::Rest(t, p) ==> 0 <= p && p + t@.len() < i32::MAX),
            spec_tokenize(tokens@, pre_lexed@.subrange(0, i as int)) == Ok::<Seq<LexedV>, (int, Seq<char>)>(lexed_views(lexed@)),
        decreases pre_lexed@.len() - i,
    {
        let ghost next = pre_lexed@.subrange(0, i + 1);
        proof {
            assert(next.drop_last() =~= pre_lexed@.subrange(0, i as int));
            assert(next.last() == pre_lexed@[i as int]);
        }
        match &pre_lexed[i] {
            PreLexed::Rest(val, pos) => {
                let res = scan_piece(tokens, val, *pos, &mut lexed);
                if let Err(e) = res {
                    proof {
                        lemma_tokenize_prefix_err(tokens@, pre_lexed@, i as int + 1);
                    }
                    return Err(e);
                }
            },
            PreLexed::String(val, pos) => {
                let bytes = val.as_bytes_vec();
                push_token(&mut lexed, Lexed::Literal(Literal::String(bytes), *pos));
            },
        }
        i = i + 1;
    }
    proof {
        assert(pre_lexed@.subrange(0, pre_lexed@.len() as int) =~= pre_lexed@);
    }
    Ok(lexed)
}

proof fn lemma_tokenize_prefix_err(tokens: Seq<(&str, Token)>, pieces: Seq<PreLexed>, n: int)
    requires
        0 <= n <= pieces.len(),
        spec_tokenize(tokens, pieces.subrange(0, n)) is Err,
    ensures
        spec_tokenize(tokens, pieces) == spec_tokenize(tokens, pieces.subrange(0, n)),
    decreases pieces.len() - n,
{
    if n < pieces.len() {
        assert(pieces.subrange(0, n + 1).drop_last() =~= pieces.subrange(0, n));
        lemma_tokenize_prefix_err(tokens, pieces, n + 1);
    } else {
        assert(pieces.subrange(0, n) =~= pieces);
    }
}

/// The spellings of the operators and keywords.
pub fn operator_table() -> (r: Vec<(&'static str, Token)>)
    ensures
        r@ == seq![
            ("=", Token::Equals),
            ("+", Token::Plus),
            ("-", Token::Minus),
            ("*", Token::Asterix),
            ("/", Token::Slash),
            (";", Token::SemiColon),
            (":", Token::Colon),
            (".", Token::Dot),
            ("(", Token::ParOpen),
            (")", Token::ParClose),
            (">=", Token::GtOrEq),
            ("<=", Token::LtOrEq),
            ("\n", Token::LineBreak),
            ("print", Token::Print),
        ],
{
    let r = vec![
        ("=", Token::Equals),
        ("+", Token::Plus),
        ("-", Token::Minus),
        ("*", Token::Asterix),
        ("/", Token::Slash),
        (";", Token::SemiColon),
        (":", Token::Colon),
        (".", Token::Dot),
        ("(", Token::ParOpen),
        (")", Token::ParClose),
        (">=", Token::GtOrEq),
        ("<=", Token::LtOrEq),
        ("\n", Token::LineBreak),
        ("print", Token::Print),
    ];
    assert(r@ =~= seq![
        ("=", Token::Equals),
        ("+", Token::Plus),
        ("-", Token::Minus),
        ("*", Token::Asterix),
        ("/", Token::Slash),
        (";", Token::SemiColon),
        (":", Token::Colon),
        (".", Token::Dot),
        ("(", Token::ParOpen),
        (")", Token::ParClose),
        (">=", Token::GtOrEq),
        ("<=", Token::LtOrEq),
        ("\n", Token::LineBreak),
        ("print", Token::Print),
    ]);
    r
}

} // verus!
