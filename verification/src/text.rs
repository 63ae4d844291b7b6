use vstd::prelude::*;
use vstd::string::*;

verus! {

/// Whether `token` begins with the dash that marks a flag.
pub open spec fn is_dashed(token: Seq<char>) -> bool {
    token.len() > 0 && token[0] == '-'
}

/// `pattern` stands in `text` at the index `at`.
pub open spec fn occurs_at(text: Seq<char>, pattern: Seq<char>, at: int) -> bool {
    0 <= at && at + pattern.len() <= text.len() && text.subrange(at, at + pattern.len())
        == pattern
}

/// `pattern` stands somewhere in `text`.
pub open spec fn occurs(text: Seq<char>, pattern: Seq<char>) -> bool {
    exists|at: int| occurs_at(text, pattern, at)
}

/// `text` with `value` in place of `token`, wherever `token` stands: the text is
/// read from the left, and what has been taken for one `token` is not read
/// again. An empty `token` stands nowhere.
pub open spec fn substituted(text: Seq<char>, token: Seq<char>, value: Seq<char>) -> Seq<char>
    decreases text.len(),
{
    if token.len() == 0 || text.len() == 0 {
        text
    } else if occurs_at(text, token, 0) {
        value + substituted(text.skip(token.len() as int), token, value)
    } else {
        seq![text[0]] + substituted(text.skip(1), token, value)
    }
}

/// The character that is written for a number below ten.
pub open spec fn digit_char(d: nat) -> char {
    if d == 0 {
        '0'
    } else if d == 1 {
        '1'
    } else if d == 2 {
        '2'
    } else if d == 3 {
        '3'
    } else if d == 4 {
        '4'
    } else if d == 5 {
        '5'
    } else if d == 6 {
        '6'
    } else if d == 7 {
        '7'
    } else if d == 8 {
        '8'
    } else {
        '9'
    }
}

/// A number as it is written in decimal digits, with no digit more than it
/// needs.
pub open spec fn digits_of(n: nat) -> Seq<char>
    decreases n,
{
    if n < 10 {
        seq![digit_char(n)]
    } else {
        digits_of(n / 10).push(digit_char(n % 10))
    }
}

/// `String::push`: the character is appended.
#[verifier::external_body]
pub(crate) fn push_char(text: &mut String, c: char)
    ensures
        final(text)@ == old(text)@.push(c),
{
    text.push(c)
}

/// Whether `token` begins with a dash.
pub fn starts_with_dash(token: &str) -> (b: bool)
    ensures
        b == is_dashed(token@),
{
    !token.is_empty() && token.get_char(0) == '-'
}

/// The characters of `text`, one by one.
pub fn chars_of(text: &str) -> (list: Vec<char>)
    ensures
        list@ == text@,
{
    let mut list: Vec<char> = Vec::new();
    let chars = text.chars();
    for c in it: chars
        invariant
            it.seq() == text@,
            list@ == it.seq().take(it.index()),
    {
        list.push(c);
    }
    assert(text@.take(text@.len() as int) == text@);
    list
}

/// Whether `pattern` stands in `text` at `at`.
pub fn matches_at(text: &Vec<char>, pattern: &Vec<char>, at: usize) -> (b: bool)
    ensures
        b == occurs_at(text@, pattern@, at as int),
{
    if at > text.len() || pattern.len() > text.len() - at {
        return false;
    }
    let mut k: usize = 0;
    while k < pattern.len()
        invariant
            k <= pattern.len(),
            at + pattern.len() <= text.len(),
            forall|j: int| 0 <= j < k ==> text@[at + j] == pattern@[j],
        decreases pattern.len() - k,
    {
        if text[at + k] != pattern[k] {
            assert(text@.subrange(at as int, at + pattern.len())[k as int] == text@[at + k]);
            return false;
        }
        k += 1;
    }
    assert(text@.subrange(at as int, at + pattern.len()) =~= pattern@);
    true
}

/// Whether `pattern` stands somewhere in `text`.
pub fn contains(text: &str, pattern: &str) -> (b: bool)
    ensures
        b == occurs(text@, pattern@),
{
    let source = chars_of(text);
    let sought = chars_of(pattern);
    let mut at: usize = 0;
    while at < source.len()
        invariant
            at <= source.len(),
            source@ == text@,
            sought@ == pattern@,
            forall|j: int| 0 <= j < at ==> !occurs_at(source@, sought@, j),
        decreases source.len() - at,
    {
        if matches_at(&source, &sought, at) {
            return true;
        }
        at += 1;
    }
    matches_at(&source, &sought, at)
}

/// Where `token` stands at `at`, what is left of `text` from there begins with
/// it; the rest of the text follows.
proof fn lemma_substituted_step(text: Seq<char>, token: Seq<char>, value: Seq<char>, at: int)
    requires
        0 <= at < text.len(),
        token.len() > 0,
    ensures
        occurs_at(text, token, at) ==> substituted(text.skip(at), token, value) == value
            + substituted(text.skip(at + token.len()), token, value),
        !occurs_at(text, token, at) ==> substituted(text.skip(at), token, value) == seq![text[at]]
            + substituted(text.skip(at + 1), token, value),
{
    let tail = text.skip(at);
    if at + token.len() <= text.len() {
        assert(tail.subrange(0, token.len() as int) =~= text.subrange(at, at + token.len()));
        assert(tail.skip(token.len() as int) =~= text.skip(at + token.len()));
    }
    assert(tail.skip(1) =~= text.skip(at + 1));
}

/// `text` with `value` in place of every `token`.
pub fn substitute(text: &str, token: &str, value: &str) -> (out: String)
    ensures
        out@ == substituted(text@, token@, value@),
{
    let source = chars_of(text);
    let token = chars_of(token);
    if token.len() == 0 {
        return String::from_str(text);
    }
    let mut out = String::new();
    let mut at: usize = 0;
    assert(source@.skip(0) =~= source@);
    while at < source.len()
        invariant
            at <= source.len(),
            token.len() > 0,
            out@ + substituted(source@.skip(at as int), token@, value@) == substituted(
                source@,
                token@,
                value@,
            ),
        decreases source.len() - at,
    {
        proof {
            lemma_substituted_step(source@, token@, value@, at as int);
        }
        let ghost before = out@;
        let ghost rest = substituted(source@.skip(at as int), token@, value@);
        if matches_at(&source, &token, at) {
            out.append(value);
            at += token.len();
            assert(out@ + substituted(source@.skip(at as int), token@, value@) =~= before + rest);
        } else {
            push_char(&mut out, source[at]);
            at += 1;
            assert(out@ + substituted(source@.skip(at as int), token@, value@) =~= before + rest);
        }
    }
    assert(source@.skip(source@.len() as int) =~= Seq::<char>::empty());
    assert(out@ + Seq::<char>::empty() =~= out@);
    out
}

/// A beginning of the text in which the first character of `token` does not
/// stand is kept as it is.
pub proof fn lemma_substituted_plain_prefix(
    prefix: Seq<char>,
    rest: Seq<char>,
    token: Seq<char>,
    value: Seq<char>,
)
    requires
        token.len() > 0,
        forall|i: int| 0 <= i < prefix.len() ==> prefix[i] != token[0],
    ensures
        substituted(prefix + rest, token, value) == prefix + substituted(rest, token, value),
    decreases prefix.len(),
{
    let text = prefix + rest;
    if prefix.len() == 0 {
        assert(text =~= rest);
        assert(prefix + substituted(rest, token, value) =~= substituted(rest, token, value));
    } else {
        if occurs_at(text, token, 0) {
            assert(text.subrange(0, token.len() as int)[0] == text[0]);
        }
        assert(text.skip(1) =~= prefix.skip(1) + rest);
        lemma_substituted_plain_prefix(prefix.skip(1), rest, token, value);
        assert(seq![text[0]] + (prefix.skip(1) + substituted(rest, token, value)) =~= prefix
            + substituted(rest, token, value));
    }
}

/// Where the text begins with `token`, the result begins with `value`.
pub proof fn lemma_substituted_token(rest: Seq<char>, token: Seq<char>, value: Seq<char>)
    requires
        token.len() > 0,
    ensures
        substituted(token + rest, token, value) == value + substituted(rest, token, value),
{
    let text = token + rest;
    assert(text.subrange(0, token.len() as int) =~= token);
    assert(text.skip(token.len() as int) =~= rest);
}

/// Appends `n` in decimal digits.
pub fn push_decimal(out: &mut String, n: usize)
    ensures
        final(out)@ == old(out)@ + digits_of(n as nat),
    decreases n,
{
    if n >= 10 {
        push_decimal(out, n / 10);
    }
    let d = n % 10;
    let c = if d == 0 {
        '0'
    } else if d == 1 {
        '1'
    } else if d == 2 {
        '2'
    } else if d == 3 {
        '3'
    } else if d == 4 {
        '4'
    } else if d == 5 {
        '5'
    } else if d == 6 {
        '6'
    } else if d == 7 {
        '7'
    } else if d == 8 {
        '8'
    } else {
        '9'
    };
    let ghost before = out@;
    push_char(out, c);
    proof {
        if n < 10 {
            assert(before.push(c) =~= before + digits_of(n as nat));
        } else {
            assert(before.push(c) =~= old(out)@ + digits_of(n as nat));
        }
    }
}

} // verus!
