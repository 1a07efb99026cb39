//! Character-level text operations: the query escaping used in request
//! URLs, decimal rendering of numbers and whitespace normalisation.
use vstd::prelude::*;
use vstd::string::*;

verus! {

/// Relies on `String::push`: the character is appended at the end.
pub assume_specification[ String::push ](s: &mut String, ch: char)
    ensures
        final(s)@ == old(s)@.push(ch),
;

/// Relies on `String::pop`: the last character is removed and returned,
/// and an empty string gives `None`.
pub assume_specification[ String::pop ](s: &mut String) -> (r: Option<char>)
    ensures
        old(s)@.len() == 0 ==> r is None && final(s)@ == old(s)@,
        old(s)@.len() > 0 ==> r == Some(old(s)@.last()) && final(s)@ == old(s)@.drop_last(),
;

/// The escape of one character of a query: space becomes `+`, and the
/// parentheses and the double quote are percent-encoded.
pub open spec fn escape_char(c: char) -> Seq<char> {
    if c == '(' {
        "%28"@
    } else if c == ')' {
        "%29"@
    } else if c == ' ' {
        "+"@
    } else if c == '"' {
        "%22"@
    } else {
        seq![c]
    }
}

/// The query text as it stands in a request URL.
pub open spec fn encoded(s: Seq<char>) -> Seq<char>
    decreases s.len(),
{
    if s.len() == 0 {
        Seq::empty()
    } else {
        encoded(s.drop_last()) + escape_char(s.last())
    }
}

/// Escapes the query text for a request URL.
pub fn encode_query(q: &str) -> (r: String)
    ensures
        r@ == encoded(q@),
{
    let n = q.unicode_len();
    let mut r = String::new();
    let mut i: usize = 0;
    while i < n
        invariant
            n == q@.len(),
            i <= n,
            r@ == encoded(q@.subrange(0, i as int)),
        decreases n - i,
    {
        let c = q.get_char(i);
        if c == '(' {
            r.append("%28");
        } else if c == ')' {
            r.append("%29");
        } else if c == ' ' {
            r.append("+");
        } else if c == '"' {
            r.append("%22");
        } else {
            r.push(c);
        }
        proof {
            let p = q@.subrange(0, i + 1);
            assert(p.drop_last() == q@.subrange(0, i as int));
            assert(p.last() == c);
        }
        i = i + 1;
    }
    proof {
        assert(q@.subrange(0, n as int) == q@);
    }
    r
}

/// The decimal digit that stands for `d`.
pub open spec fn digit_char(d: nat) -> char {
    ((48 + d) as u8) as char
}

/// The decimal rendering of `n`, without sign or leading zeros.
pub open spec fn decimal(n: nat) -> Seq<char>
    decreases n,
{
    if n < 10 {
        seq![digit_char(n)]
    } else {
        decimal(n / 10).push(digit_char(n % 10))
    }
}

/// Appends the decimal rendering of `n` to `s`.
pub fn push_decimal(s: &mut String, n: u32)
    ensures
        final(s)@ == old(s)@ + decimal(n as nat),
    decreases n,
{
    if n >= 10 {
        push_decimal(s, n / 10);
    }
    let d: u8 = (n % 10) as u8;
    s.push((48u8 + d) as char);
    proof {
        if n >= 10 {
            assert(old(s)@ + decimal(n as nat) == old(s)@ + decimal((n / 10) as nat) + seq![digit_char((n % 10) as nat)]);
        } else {
            assert(decimal(n as nat) == seq![digit_char(n as nat)]);
        }
    }
}

/// Address of the search endpoint, up to the query text.
pub open spec fn query_prefix() -> Seq<char> {
    "http://export.arxiv.org/api/query?search_query=all:"@
}

/// The request URL that asks for `max` results from offset `start`.
pub open spec fn request_url(q: Seq<char>, start: nat, max: nat) -> Seq<char> {
    query_prefix() + encoded(q) + "&start="@ + decimal(start) + "&max_results="@ + decimal(max)
}

/// Builds the request URL for the query text, offset and window size.
pub fn build_request_url(q: &str, start: u32, max: u32) -> (r: String)
    ensures
        r@ == request_url(q@, start as nat, max as nat),
{
    let mut r = String::from_str("http://export.arxiv.org/api/query?search_query=all:");
    let e = encode_query(q);
    r.append(e.as_str());
    r.append("&start=");
    push_decimal(&mut r, start);
    r.append("&max_results=");
    push_decimal(&mut r, max);
    r
}

/// Whitespace that a summary shows as a plain space.
pub open spec fn blank(c: char) -> char {
    if c == '\n' || c == '\t' {
        ' '
    } else {
        c
    }
}

/// The text with each line feed and tab replaced by a space.
pub open spec fn flattened(s: Seq<char>) -> Seq<char> {
    s.map_values(|c: char| blank(c))
}

/// Replaces each line feed and tab of the text by a space.
pub fn flatten_whitespace(t: &str) -> (r: String)
    ensures
        r@ == flattened(t@),
{
    let n = t.unicode_len();
    let mut r = String::new();
    let mut i: usize = 0;
    while i < n
        invariant
            n == t@.len(),
            i <= n,
            r@ == flattened(t@.subrange(0, i as int)),
        decreases n - i,
    {
        let c = t.get_char(i);
        if c == '\n' || c == '\t' {
            r.push(' ');
        } else {
            r.push(c);
        }
        proof {
            assert(flattened(t@.subrange(0, i + 1)) == flattened(t@.subrange(0, i as int)).push(blank(c)));
        }
        i = i + 1;
    }
    proof {
        assert(t@.subrange(0, n as int) == t@);
    }
    r
}

/// The text with each occurrence of `c` replaced by `r`.
pub open spec fn replaced(s: Seq<char>, c: char, r: Seq<char>) -> Seq<char>
    decreases s.len(),
{
    if s.len() == 0 {
        Seq::empty()
    } else {
        replaced(s.drop_last(), c, r) + if s.last() == c {
            r
        } else {
            seq![s.last()]
        }
    }
}

/// One of the four characters that the query escaping rewrites.
pub open spec fn is_special(c: char) -> bool {
    c == '(' || c == ')' || c == ' ' || c == '"'
}

proof fn lemma_replaced_concat(a: Seq<char>, b: Seq<char>, c: char, r: Seq<char>)
    ensures
        replaced(a + b, c, r) == replaced(a, c, r) + replaced(b, c, r),
    decreases b.len(),
{
    if b.len() == 0 {
        assert(a + b == a);
        assert(replaced(a, c, r) + replaced(b, c, r) == replaced(a, c, r));
    } else {
        lemma_replaced_concat(a, b.drop_last(), c, r);
        assert((a + b).drop_last() == a + b.drop_last());
    }
}

proof fn lemma_replaced_absent(s: Seq<char>, c: char, r: Seq<char>)
    requires
        !s.contains(c),
    ensures
        replaced(s, c, r) == s,
    decreases s.len(),
{
    if s.len() > 0 {
        assert(!s.drop_last().contains(c)) by {
            if s.drop_last().contains(c) {
                let k = choose|k: int| 0 <= k < s.drop_last().len() && s.drop_last()[k] == c;
                assert(s[k] == c);
            }
        }
        lemma_replaced_absent(s.drop_last(), c, r);
        assert(s.last() == s[s.len() - 1]);
        assert(s.drop_last().push(s.last()) == s);
    }
}

proof fn lemma_escape_has_no_special(c: char)
    ensures
        forall|k: int| 0 <= k < escape_char(c).len() ==> !is_special(#[trigger] escape_char(c)[k]),
        !is_special(c) ==> escape_char(c) == seq![c],
{
    reveal_strlit("%28");
    reveal_strlit("%29");
    reveal_strlit("+");
    reveal_strlit("%22");
}

/// Query escaping leaves a text that holds none of the four escaped
/// characters as it is.
pub proof fn lemma_encoding_keeps_plain_text(s: Seq<char>)
    requires
        forall|k: int| 0 <= k < s.len() ==> !is_special(#[trigger] s[k]),
    ensures
        encoded(s) == s,
    decreases s.len(),
{
    if s.len() > 0 {
        lemma_encoding_keeps_plain_text(s.drop_last());
        lemma_escape_has_no_special(s.last());
        assert(s.drop_last().push(s.last()) == s);
    }
}

/// The escaped text holds none of the four escaped characters.
pub proof fn lemma_encoded_has_no_special(s: Seq<char>)
    ensures
        forall|k: int| 0 <= k < encoded(s).len() ==> !is_special(#[trigger] encoded(s)[k]),
    decreases s.len(),
{
    if s.len() > 0 {
        lemma_encoded_has_no_special(s.drop_last());
        lemma_escape_has_no_special(s.last());
        let a = encoded(s.drop_last());
        let b = escape_char(s.last());
        assert forall|k: int| 0 <= k < encoded(s).len() implies !is_special(#[trigger] encoded(s)[k]) by {
            if k < a.len() {
                assert(encoded(s)[k] == a[k]);
            } else {
                assert(encoded(s)[k] == b[k - a.len()]);
            }
        }
    }
}

/// Escaping an escaped query changes nothing more.
pub proof fn lemma_encoding_idempotent(s: Seq<char>)
    ensures
        encoded(encoded(s)) == encoded(s),
{
    lemma_encoded_has_no_special(s);
    lemma_encoding_keeps_plain_text(encoded(s));
}

/// The four substitutions `(`, `)`, space and `"`, each applied once over
/// the whole text, in that order.
pub open spec fn four_substitutions(s: Seq<char>) -> Seq<char> {
    replaced(replaced(replaced(replaced(s, '(', "%28"@), ')', "%29"@), ' ', "+"@), '"', "%22"@)
}

proof fn lemma_four_substitutions_concat(a: Seq<char>, b: Seq<char>)
    ensures
        four_substitutions(a + b) == four_substitutions(a) + four_substitutions(b),
{
    let s1a = replaced(a, '(', "%28"@);
    let s1b = replaced(b, '(', "%28"@);
    lemma_replaced_concat(a, b, '(', "%28"@);
    let s2a = replaced(s1a, ')', "%29"@);
    let s2b = replaced(s1b, ')', "%29"@);
    lemma_replaced_concat(s1a, s1b, ')', "%29"@);
    let s3a = replaced(s2a, ' ', "+"@);
    let s3b = replaced(s2b, ' ', "+"@);
    lemma_replaced_concat(s2a, s2b, ' ', "+"@);
    lemma_replaced_concat(s3a, s3b, '"', "%22"@);
}

proof fn lemma_replaced_single(x: char, c: char, r: Seq<char>)
    ensures
        replaced(seq![x], c, r) == if x == c {
            r
        } else {
            seq![x]
        },
{
    assert(seq![x].drop_last() == Seq::<char>::empty());
    assert(replaced(Seq::<char>::empty(), c, r) == Seq::<char>::empty());
    assert(seq![x].last() == x);
    assert(Seq::<char>::empty() + r == r);
    assert(Seq::<char>::empty() + seq![x] == seq![x]);
}

proof fn lemma_four_substitutions_single(x: char)
    ensures
        four_substitutions(seq![x]) == escape_char(x),
{
    reveal_strlit("%28");
    reveal_strlit("%29");
    reveal_strlit("+");
    reveal_strlit("%22");
    lemma_replaced_single(x, '(', "%28"@);
    let s1 = replaced(seq![x], '(', "%28"@);
    if x == '(' {
        lemma_replaced_absent(s1, ')', "%29"@);
        lemma_replaced_absent(s1, ' ', "+"@);
        lemma_replaced_absent(s1, '"', "%22"@);
    } else {
        lemma_replaced_single(x, ')', "%29"@);
        let s2 = replaced(s1, ')', "%29"@);
        if x == ')' {
            lemma_replaced_absent(s2, ' ', "+"@);
            lemma_replaced_absent(s2, '"', "%22"@);
        } else {
            lemma_replaced_single(x, ' ', "+"@);
            let s3 = replaced(s2, ' ', "+"@);
            if x == ' ' {
                lemma_replaced_absent(s3, '"', "%22"@);
            } else {
                lemma_replaced_single(x, '"', "%22"@);
            }
        }
    }
}

/// Query escaping is the four substitutions `(` to `%28`, `)` to `%29`,
/// space to `+` and `"` to `%22`, each applied once, in that order:
/// no substitution rewrites what an earlier one wrote.
pub proof fn lemma_encoding_is_four_substitutions(s: Seq<char>)
    ensures
        encoded(s) == four_substitutions(s),
    decreases s.len(),
{
    if s.len() == 0 {
        assert(replaced(s, '(', "%28"@) == s);
        assert(replaced(s, ')', "%29"@) == s);
        assert(replaced(s, ' ', "+"@) == s);
        assert(replaced(s, '"', "%22"@) == s);
    } else {
        lemma_encoding_is_four_substitutions(s.drop_last());
        lemma_four_substitutions_concat(s.drop_last(), seq![s.last()]);
        lemma_four_substitutions_single(s.last());
        assert(s.drop_last() + seq![s.last()] == s);
    }
}

} // verus!
