use vstd::prelude::*;
use vstd::string::StringExecFns;

verus! {

/// Whether `char::is_alphanumeric` holds of `c` (the Unicode `Alphabetic`
/// or `Numeric` property).
pub uninterp spec fn char_is_alphanumeric(c: char) -> bool;

/// Calls `char::is_alphanumeric`. Claimed: the result is the value that
/// `char_is_alphanumeric` gives for `c`, which depends on `c` alone.
#[verifier::external_body]
fn is_alphanumeric(c: char) -> (res: bool)
    ensures
        res == char_is_alphanumeric(c),
{
    c.is_alphanumeric()
}

/// The ASCII upper-case form of a character: `a`..`z` become `A`..`Z`,
/// every other character stays as it is.
pub open spec fn ascii_upper(c: char) -> char {
    if 'a' <= c && c <= 'z' {
        ((c as u32) - 32) as char
    } else {
        c
    }
}

/// Calls `char::to_ascii_uppercase`. Claimed, as its documentation says:
/// ASCII letters `a`..`z` are mapped to `A`..`Z` and every other character
/// is returned unchanged.
#[verifier::external_body]
fn to_ascii_uppercase(c: char) -> (res: char)
    ensures
        res == ascii_upper(c),
{
    c.to_ascii_uppercase()
}


/// Calls `String::push`. Claimed: the character is appended at the end.
#[verifier::external_body]
fn push_char(s: &mut String, c: char)
    ensures
        final(s)@ == old(s)@.push(c),
{
    s.push(c);
}

/// The upper-cased form of a sequence of characters, character by character.
pub open spec fn upper_all(s: Seq<char>) -> Seq<char> {
    s.map_values(|c: char| ascii_upper(c))
}

/// What remains of `s` once the characters before its first alphanumeric
/// character are dropped (empty when it has none).
pub open spec fn spec_trim_left(s: Seq<char>) -> Seq<char>
    decreases s.len(),
{
    if s.len() == 0 || char_is_alphanumeric(s[0]) {
        s
    } else {
        spec_trim_left(s.drop_first())
    }
}

/// The length of the run of alphanumeric characters at the start of `s`.
pub open spec fn alnum_run(s: Seq<char>) -> nat
    decreases s.len(),
{
    if s.len() == 0 || !char_is_alphanumeric(s[0]) {
        0
    } else {
        1 + alnum_run(s.drop_first())
    }
}

/// One step of the lexer on the remaining input `s`: the token it yields (if
/// any) and the input that remains after it.
pub open spec fn spec_next_token(s: Seq<char>) -> (Option<Seq<char>>, Seq<char>) {
    let t = spec_trim_left(s);
    if t.len() == 0 {
        (None, t)
    } else {
        let n = alnum_run(t) as int;
        (Some(upper_all(t.take(n))), t.skip(n))
    }
}

/// Every token of `s`, in order: each maximal run of alphanumeric characters,
/// upper-cased.
pub open spec fn spec_tokens(s: Seq<char>) -> Seq<Seq<char>>
    decreases s.len(),
{
    let t = spec_trim_left(s);
    if t.len() == 0 {
        Seq::empty()
    } else {
        proof {
            lemma_trim_left(s);
            lemma_alnum_run(t);
        }
        let n = alnum_run(t) as int;
        seq![upper_all(t.take(n))] + spec_tokens(t.skip(n))
    }
}

/// The view of an optional owned string.
pub open spec fn opt_string_view(o: Option<String>) -> Option<Seq<char>> {
    match o {
        Some(s) => Some(s@),
        None => None,
    }
}

/// `spec_trim_left` drops a prefix of non-alphanumeric characters and stops at
/// an alphanumeric one.
pub proof fn lemma_trim_left(s: Seq<char>)
    ensures
        spec_trim_left(s).len() <= s.len(),
        spec_trim_left(s) == s.skip(s.len() - spec_trim_left(s).len()),
        forall|j: int| 0 <= j < s.len() - spec_trim_left(s).len() ==> !char_is_alphanumeric(#[trigger] s[j]),
        spec_trim_left(s).len() > 0 ==> char_is_alphanumeric(spec_trim_left(s)[0]),
    decreases s.len(),
{
    if s.len() == 0 || char_is_alphanumeric(s[0]) {
        assert(s.skip(0) =~= s);
    } else {
        lemma_trim_left(s.drop_first());
        let t = spec_trim_left(s.drop_first());
        assert(s.drop_first().skip(s.drop_first().len() - t.len()) =~= s.skip(s.len() - t.len()));
        assert forall|j: int| 0 <= j < s.len() - t.len() implies !char_is_alphanumeric(#[trigger] s[j]) by {
            if j > 0 {
                assert(s[j] == s.drop_first()[j - 1]);
            }
        }
    }
}

/// `alnum_run` is the length of the longest alphanumeric prefix.
pub proof fn lemma_alnum_run(s: Seq<char>)
    ensures
        alnum_run(s) <= s.len(),
        forall|j: int| 0 <= j < alnum_run(s) ==> char_is_alphanumeric(#[trigger] s[j]),
        alnum_run(s) < s.len() ==> !char_is_alphanumeric(s[alnum_run(s) as int]),
        s.len() > 0 && char_is_alphanumeric(s[0]) ==> alnum_run(s) > 0,
    decreases s.len(),
{
    if s.len() == 0 || !char_is_alphanumeric(s[0]) {
    } else {
        lemma_alnum_run(s.drop_first());
        assert forall|j: int| 0 <= j < alnum_run(s) implies char_is_alphanumeric(#[trigger] s[j]) by {
            if j > 0 {
                assert(s[j] == s.drop_first()[j - 1]);
            }
        }
    }
}

/// Once the lexer yields nothing, its input is empty and it keeps yielding
/// nothing.
pub proof fn law_exhausted_lexer_stays_exhausted(s: Seq<char>)
    ensures
        spec_next_token(s).0 is None ==> spec_next_token(s).1.len() == 0 && spec_next_token(
            spec_next_token(s).1,
        ) == (None::<Seq<char>>, Seq::<char>::empty()),
{
    if spec_next_token(s).0 is None {
        let r = spec_next_token(s).1;
        assert(r.len() == 0);
        assert(r =~= Seq::<char>::empty());
    }
}

/// The tokens of an input are the token that one step yields followed by the
/// tokens of what the step leaves; an input on which the step yields nothing
/// has no token.
pub proof fn law_tokens_step(s: Seq<char>)
    ensures
        spec_next_token(s).0 matches Some(t) ==> spec_tokens(s) == seq![t] + spec_tokens(spec_next_token(s).1),
        spec_next_token(s).0 is None ==> spec_tokens(s).len() == 0,
{
}

/// Every token is non-empty, and an input of `n` characters has at most `n`
/// tokens.
pub proof fn law_tokens_nonempty(s: Seq<char>)
    ensures
        spec_tokens(s).len() <= s.len(),
        forall|i: int| 0 <= i < spec_tokens(s).len() ==> (#[trigger] spec_tokens(s)[i]).len() > 0,
    decreases s.len(),
{
    let t = spec_trim_left(s);
    if t.len() > 0 {
        lemma_trim_left(s);
        lemma_alnum_run(t);
        let n = alnum_run(t) as int;
        let rest = t.skip(n);
        law_tokens_nonempty(rest);
        let toks = spec_tokens(s);
        assert(toks == seq![upper_all(t.take(n))] + spec_tokens(rest));
        assert forall|i: int| 0 <= i < toks.len() implies (#[trigger] toks[i]).len() > 0 by {
            if i > 0 {
                assert(toks[i] == spec_tokens(rest)[i - 1]);
            }
        }
    }
}

/// No token holds a lower-case ASCII letter.
pub proof fn law_tokens_upper_case(s: Seq<char>)
    ensures
        forall|i: int, j: int|
            0 <= i < spec_tokens(s).len() && 0 <= j < spec_tokens(s)[i].len() ==> !('a' <= #[trigger] spec_tokens(
                s,
            )[i][j] && spec_tokens(s)[i][j] <= 'z'),
    decreases s.len(),
{
    let t = spec_trim_left(s);
    if t.len() > 0 {
        lemma_trim_left(s);
        lemma_alnum_run(t);
        let n = alnum_run(t) as int;
        let rest = t.skip(n);
        law_tokens_upper_case(rest);
        let toks = spec_tokens(s);
        assert(toks == seq![upper_all(t.take(n))] + spec_tokens(rest));
        assert forall|i: int, j: int| 0 <= i < toks.len() && 0 <= j < toks[i].len() implies !('a' <= #[trigger] toks[i][j]
            && toks[i][j] <= 'z') by {
            if i > 0 {
                assert(toks[i] == spec_tokens(rest)[i - 1]);
            } else {
                let c = t.take(n)[j];
                assert(toks[0][j] == ascii_upper(c));
            }
        }
    }
}

/// Trimming skips a prefix without alphanumeric characters entirely.
proof fn lemma_trim_junk_prefix(x: Seq<char>, y: Seq<char>)
    requires
        forall|i: int| 0 <= i < x.len() ==> !char_is_alphanumeric(#[trigger] x[i]),
    ensures
        spec_trim_left(x + y) == spec_trim_left(y),
    decreases x.len(),
{
    if x.len() > 0 {
        assert((x + y)[0] == x[0]);
        assert((x + y).drop_first() =~= x.drop_first() + y);
        lemma_trim_junk_prefix(x.drop_first(), y);
    } else {
        assert(x + y =~= y);
    }
}

/// Trimming stops inside the first part when it holds an alphanumeric
/// character.
proof fn lemma_trim_concat(x: Seq<char>, y: Seq<char>)
    requires
        spec_trim_left(x).len() > 0,
    ensures
        spec_trim_left(x + y) == spec_trim_left(x) + y,
    decreases x.len(),
{
    assert((x + y)[0] == x[0]);
    if !char_is_alphanumeric(x[0]) {
        assert((x + y).drop_first() =~= x.drop_first() + y);
        lemma_trim_concat(x.drop_first(), y);
    }
}

/// An alphanumeric run ends where it ends in the first part, or at the
/// first part's end when the second part starts with a separator.
proof fn lemma_run_concat(t: Seq<char>, y: Seq<char>)
    requires
        alnum_run(t) < t.len() || (y.len() > 0 && !char_is_alphanumeric(y[0])),
    ensures
        alnum_run(t + y) == alnum_run(t),
    decreases t.len(),
{
    if t.len() == 0 {
        assert(t + y =~= y);
    } else {
        assert((t + y)[0] == t[0]);
        if char_is_alphanumeric(t[0]) {
            assert((t + y).drop_first() =~= t.drop_first() + y);
            lemma_run_concat(t.drop_first(), y);
        }
    }
}

/// Tokenizing two texts joined by a separator gives the tokens of the first
/// followed by those of the second: a non-alphanumeric character always
/// ends a token.
pub proof fn law_tokens_split(a: Seq<char>, c: char, b: Seq<char>)
    requires
        !char_is_alphanumeric(c),
    ensures
        spec_tokens(a + seq![c] + b) == spec_tokens(a) + spec_tokens(b),
    decreases a.len(),
{
    let s = a + seq![c] + b;
    let ta = spec_trim_left(a);
    lemma_trim_left(a);
    if ta.len() == 0 {
        assert forall|i: int| 0 <= i < (a + seq![c]).len() implies !char_is_alphanumeric(#[trigger] (a + seq![c])[i]) by {
            if i < a.len() {
                assert((a + seq![c])[i] == a[i]);
            }
        }
        assert(s =~= (a + seq![c]) + b);
        lemma_trim_junk_prefix(a + seq![c], b);
        assert(spec_tokens(a) =~= Seq::<Seq<char>>::empty());
        assert(spec_tokens(s) == spec_tokens(b));
        assert(spec_tokens(a) + spec_tokens(b) =~= spec_tokens(b));
    } else {
        let tail = seq![c] + b;
        assert(s =~= a + tail);
        lemma_trim_concat(a, tail);
        let ts = spec_trim_left(s);
        assert(ts == ta + tail);
        lemma_alnum_run(ta);
        let n = alnum_run(ta) as int;
        assert(tail[0] == c);
        lemma_run_concat(ta, tail);
        assert(ts.take(n) =~= ta.take(n));
        let rest = ta.skip(n);
        assert(ts.skip(n) =~= rest + seq![c] + b);
        law_tokens_split(rest, c, b);
        assert(spec_tokens(s) == seq![upper_all(ta.take(n))] + spec_tokens(ts.skip(n)));
        assert(spec_tokens(a) == seq![upper_all(ta.take(n))] + spec_tokens(rest));
        assert(spec_tokens(s) =~= spec_tokens(a) + spec_tokens(b));
    }
}

/// Upper-casing keeps every character in its place: the result is as long
/// as its input and holds the ASCII upper-case form of each character.
pub proof fn law_upper_all(s: Seq<char>)
    ensures
        upper_all(s).len() == s.len(),
        forall|i: int| 0 <= i < s.len() ==> #[trigger] upper_all(s)[i] == ascii_upper(s[i]),
        upper_all(s) == s.map_values(|c: char| ascii_upper(c)),
{
}

/// A sequence of alphanumeric characters is one alphanumeric run.
proof fn lemma_run_all(w: Seq<char>)
    requires
        forall|i: int| 0 <= i < w.len() ==> char_is_alphanumeric(#[trigger] w[i]),
    ensures
        alnum_run(w) == w.len(),
    decreases w.len(),
{
    if w.len() > 0 {
        assert forall|i: int| 0 <= i < w.drop_first().len() implies char_is_alphanumeric(#[trigger] w.drop_first()[i]) by {
            assert(w.drop_first()[i] == w[i + 1]);
        }
        lemma_run_all(w.drop_first());
    }
}

/// A whole run of alphanumeric characters at the start of the input, ended
/// by the end of the input or by a separator, is yielded as one token: every
/// character of it, upper-cased, and the step leaves exactly what follows
/// the run.
pub proof fn law_whole_run_is_one_token(w: Seq<char>, r: Seq<char>)
    requires
        w.len() > 0,
        forall|i: int| 0 <= i < w.len() ==> char_is_alphanumeric(#[trigger] w[i]),
        r.len() == 0 || !char_is_alphanumeric(r[0]),
    ensures
        spec_next_token(w + r) == (Some(w.map_values(|c: char| ascii_upper(c))), r),
        spec_next_token(w + r).0.unwrap().len() == w.len(),
{
    let s = w + r;
    assert(s[0] == w[0]);
    assert(spec_trim_left(s) == s);
    lemma_run_all(w);
    if r.len() == 0 {
        assert(s =~= w);
    } else {
        lemma_run_concat(w, r);
    }
    assert(alnum_run(s) == w.len());
    assert(s.take(w.len() as int) =~= w);
    assert(s.skip(w.len() as int) =~= r);
    law_upper_all(w);
}

/// A text made only of alphanumeric characters is a single token: the whole
/// text, upper-cased.
pub proof fn law_alphanumeric_text_is_one_token(w: Seq<char>)
    requires
        w.len() > 0,
        forall|i: int| 0 <= i < w.len() ==> char_is_alphanumeric(#[trigger] w[i]),
    ensures
        spec_tokens(w) == seq![w.map_values(|c: char| ascii_upper(c))],
{
    law_whole_run_is_one_token(w, Seq::empty());
    assert(w + Seq::<char>::empty() =~= w);
    lemma_run_all(w);
    assert(spec_trim_left(w) == w);
    assert(w.take(w.len() as int) =~= w);
    assert(w.skip(w.len() as int) =~= Seq::<char>::empty());
    assert(spec_tokens(Seq::<char>::empty()) =~= Seq::<Seq<char>>::empty());
    law_upper_all(w);
    assert(spec_tokens(w) =~= seq![w.map_values(|c: char| ascii_upper(c))]);
}

/// A text without any alphanumeric character has no token.
pub proof fn law_no_alphanumeric_no_token(s: Seq<char>)
    requires
        forall|i: int| 0 <= i < s.len() ==> !char_is_alphanumeric(#[trigger] s[i]),
    ensures
        spec_tokens(s).len() == 0,
{
    lemma_trim_left(s);
    if spec_trim_left(s).len() > 0 {
        let k = s.len() - spec_trim_left(s).len();
        assert(spec_trim_left(s)[0] == s[k]);
    }
}

/// A cursor over a slice of characters that yields its tokens one by one.
pub struct Lexer<'a> {
    pub content: &'a [char],
}

impl<'a> Lexer<'a> {
    /// A lexer over the whole of `content`.
    pub fn new(content: &'a [char]) -> (res: Self)
        ensures
            res.content@ == content@,
    {
        Self { content }
    }

    /// Drops the non-alphanumeric characters at the start of the input.
    fn trim_left(&mut self)
        ensures
            final(self).content@ == spec_trim_left(old(self).content@),
    {
        let ghost start = self.content@;
        while self.content.len() > 0 && !is_alphanumeric(self.content[0])
            invariant
                spec_trim_left(self.content@) == spec_trim_left(start),
            decreases self.content@.len(),
        {
            let ghost prev = self.content@;
            let len = self.content.len();
            self.content = &self.content[1..len];
            assert(self.content@ =~= prev.drop_first());
        }
    }

    /// Yields the next token, upper-cased, and moves past it; `None` once no
    /// alphanumeric character is left.
    pub fn next_token(&mut self) -> (res: Option<String>)
        ensures
            opt_string_view(res) == spec_next_token(old(self).content@).0,
            final(self).content@ == spec_next_token(old(self).content@).1,
            res is Some ==> final(self).content@.len() < old(self).content@.len(),
            res is None ==> final(self).content@.len() == 0,
    {
        proof {
            lemma_trim_left(self.content@);
        }
        self.trim_left();
        let len = self.content.len();
        if len == 0 {
            return None;
        }
        let mut n: usize = 0;
        while n < len && is_alphanumeric(self.content[n])
            invariant
                n <= len,
                len == self.content@.len(),
                forall|j: int| 0 <= j < n ==> char_is_alphanumeric(#[trigger] self.content@[j]),
            decreases len - n,
        {
            n += 1;
        }
        proof {
            lemma_alnum_run(self.content@);
            assert(n == alnum_run(self.content@));
        }
        let word = &self.content[0..n];
        self.content = &self.content[n..len];
        let mut res = String::new();
        let mut i: usize = 0;
        while i < n
            invariant
                i <= n,
                n == word@.len(),
                res@ =~= upper_all(word@.take(i as int)),
            decreases n - i,
        {
            push_char(&mut res, to_ascii_uppercase(word[i]));
            i += 1;
            assert(word@.take(i as int) =~= word@.take(i - 1).push(word@[i - 1]));
        }
        assert(word@.take(n as int) =~= word@);
        Some(res)
    }

    /// The same step as `next_token`, under the name an iterator gives it.
    pub fn next(&mut self) -> (res: Option<String>)
        ensures
            opt_string_view(res) == spec_next_token(old(self).content@).0,
            final(self).content@ == spec_next_token(old(self).content@).1,
    {
        self.next_token()
    }

    /// Yields every remaining token, in order, leaving the lexer exhausted.
    pub fn collect_tokens(&mut self) -> (res: Vec<String>)
        ensures
            strings_view(res@) == spec_tokens(old(self).content@),
            final(self).content@.len() == 0,
    {
        let mut res: Vec<String> = Vec::new();
        let ghost start = self.content@;
        loop
            invariant
                spec_tokens(start) == strings_view(res@) + spec_tokens(self.content@),
            ensures
                strings_view(res@) == spec_tokens(start),
                self.content@.len() == 0,
            decreases self.content@.len(),
        {
            let ghost before = self.content@;
            match self.next_token() {
                Some(word) => {
                    res.push(word);
                    assert(strings_view(res@) =~= strings_view(res@.drop_last()).push(word@));
                    assert(spec_tokens(before) == seq![word@] + spec_tokens(self.content@));
                    assert(spec_tokens(start) =~= strings_view(res@) + spec_tokens(self.content@));
                },
                None => {
                    assert(spec_tokens(before) =~= Seq::<Seq<char>>::empty());
                    assert(spec_tokens(start) =~= strings_view(res@));
                    break;
                },
            }
        }
        res
    }
}

/// The views of a sequence of owned strings.
pub open spec fn strings_view(v: Seq<String>) -> Seq<Seq<char>> {
    v.map_values(|s: String| s@)
}

/// The characters of `text`, in order.
pub fn str_chars(text: &str) -> (res: Vec<char>)
    ensures
        res@ == text@,
{
    let mut res: Vec<char> = Vec::new();
    for c in it: text.chars()
        invariant
            res@ == it.seq().take(it.index() as int),
    {
        res.push(c);
    }
    res
}

/// Whether two strings hold the same characters.
pub fn str_eq(a: &str, b: &str) -> (res: bool)
    ensures
        res == (a@ == b@),
{
    let x = str_chars(a);
    let y = str_chars(b);
    if x.len() != y.len() {
        return false;
    }
    let mut i: usize = 0;
    while i < x.len()
        invariant
            i <= x@.len(),
            x@ == a@,
            y@ == b@,
            x@.len() == y@.len(),
            forall|j: int| 0 <= j < i ==> x@[j] == y@[j],
        decreases x@.len() - i,
    {
        if x[i] != y[i] {
            assert(x@[i as int] != y@[i as int]);
            return false;
        }
        i += 1;
    }
    assert(x@ =~= y@);
    true
}

/// Every token of `text`, in order.
pub fn tokenize(text: &str) -> (res: Vec<String>)
    ensures
        strings_view(res@) == spec_tokens(text@),
{
    let chars = str_chars(text);
    let mut lexer = Lexer::new(chars.as_slice());
    lexer.collect_tokens()
}


/// The character of the decimal digit `d`.
pub open spec fn digit_char(d: nat) -> char {
    if d == 0 {
        '0'
    } else if d == 1 {
        '1'
    } else if d == 2 {
        '2'
    } else if d == 3 {
        '3'
    } else if d == 4 {
        '4'
    } else if d == 5 {
        '5'
    } else if d == 6 {
        '6'
    } else if d == 7 {
        '7'
    } else if d == 8 {
        '8'
    } else {
        '9'
    }
}

/// The value of the decimal digit character `c`.
pub open spec fn digit_value(c: char) -> int {
    (c as u32) - ('0' as u32)
}

/// Whether `c` is one of the decimal digits `0`..`9`.
pub open spec fn is_digit(c: char) -> bool {
    '0' <= c && c <= '9'
}

/// The decimal notation of `n`, without leading zeros.
pub open spec fn spec_decimal(n: nat) -> Seq<char>
    decreases n,
{
    if n < 10 {
        seq![digit_char(n)]
    } else {
        spec_decimal(n / 10).push(digit_char(n % 10))
    }
}

/// The number that a sequence of decimal digits denotes.
pub open spec fn digits_value(s: Seq<char>) -> int
    decreases s.len(),
{
    if s.len() == 0 {
        0
    } else {
        digits_value(s.drop_last()) * 10 + digit_value(s.last())
    }
}

/// `s` without the `+` sign that may lead it.
pub open spec fn sign_stripped(s: Seq<char>) -> Seq<char> {
    if s.len() > 0 && s[0] == '+' {
        s.drop_first()
    } else {
        s
    }
}

/// Whether every character of `d` is a decimal digit.
pub open spec fn all_digits(d: Seq<char>) -> bool {
    forall|i: int| 0 <= i < d.len() ==> is_digit(#[trigger] d[i])
}

/// What parsing `s` as a `u16` gives: an optional `+` followed by one or
/// more decimal digits whose value fits in 16 bits.
pub open spec fn spec_parse_u16(s: Seq<char>) -> Option<u16> {
    let d = sign_stripped(s);
    if d.len() > 0 && all_digits(d) && digits_value(d) <= u16::MAX {
        Some(digits_value(d) as u16)
    } else {
        None
    }
}

/// The decimal digit character of `d`.
fn decimal_digit(d: usize) -> (res: char)
    requires
        d < 10,
    ensures
        res == digit_char(d as nat),
{
    if d == 0 {
        '0'
    } else if d == 1 {
        '1'
    } else if d == 2 {
        '2'
    } else if d == 3 {
        '3'
    } else if d == 4 {
        '4'
    } else if d == 5 {
        '5'
    } else if d == 6 {
        '6'
    } else if d == 7 {
        '7'
    } else if d == 8 {
        '8'
    } else {
        '9'
    }
}

/// The decimal notation of `n`.
pub fn decimal(n: usize) -> (res: String)
    ensures
        res@ == spec_decimal(n as nat),
    decreases n,
{
    if n < 10 {
        let mut res = String::new();
        push_char(&mut res, decimal_digit(n));
        res
    } else {
        let mut res = decimal(n / 10);
        push_char(&mut res, decimal_digit(n % 10));
        res
    }
}

/// `v`, or 65536 when it is larger.
pub open spec fn capped(v: int) -> int {
    if v < 65536 {
        v
    } else {
        65536
    }
}

/// Reading one more digit: the capped value of the longer digit sequence
/// follows from the capped value of the shorter one.
proof fn lemma_capped_step(p: Seq<char>, c: char)
    requires
        is_digit(c),
        digits_value(p) >= 0,
    ensures
        digits_value(p.push(c)) >= 0,
        capped(digits_value(p.push(c))) == capped(capped(digits_value(p)) * 10 + digit_value(c)),
{
    assert(p.push(c).drop_last() =~= p);
    assert(p.push(c).last() == c);
}

/// Parses `s` as a `u16`: an optional `+`, then decimal digits only, with a
/// value of at most 65535.
pub fn parse_u16(s: &str) -> (res: Option<u16>)
    ensures
        res == spec_parse_u16(s@),
{
    let chars = str_chars(s);
    let len = chars.len();
    let start: usize = if len > 0 && chars[0] == '+' {
        1
    } else {
        0
    };
    let ghost d = chars@.skip(start as int);
    assert(d =~= sign_stripped(s@));
    if start == len {
        return None;
    }
    let mut acc: u32 = 0;
    let mut i: usize = start;
    assert(d.take(0) =~= Seq::<char>::empty());
    while i < len
        invariant
            start <= i <= len,
            len == chars@.len(),
            d == chars@.skip(start as int),
            d == sign_stripped(s@),
            forall|k: int| 0 <= k < i - start ==> is_digit(#[trigger] d[k]),
            digits_value(d.take(i - start)) >= 0,
            acc as int == capped(digits_value(d.take(i - start))),
        decreases len - i,
    {
        let c = chars[i];
        assert(c == d[i - start]);
        if !('0' <= c && c <= '9') {
            assert(!is_digit(d[i - start]));
            assert(!all_digits(d));
            return None;
        }
        let v = (c as u32) - 48;
        proof {
            lemma_capped_step(d.take(i - start), c);
            assert(d.take(i - start + 1) =~= d.take(i - start).push(c));
        }
        acc = if acc * 10 + v < 65536 {
            acc * 10 + v
        } else {
            65536
        };
        i += 1;
    }
    assert(d.take(len - start) =~= d);
    if acc < 65536 {
        Some(acc as u16)
    } else {
        None
    }
}

/// Decimal notation and `u16` parsing undo each other: parsing the decimal
/// notation of any `u16` gives that number back.
pub proof fn law_parse_decimal_roundtrip(n: u16)
    ensures
        spec_parse_u16(spec_decimal(n as nat)) == Some(n),
{
    lemma_decimal_digits(n as nat);
}

/// The decimal notation of `n` is made of digits only and denotes `n`.
pub proof fn lemma_decimal_digits(n: nat)
    ensures
        spec_decimal(n).len() > 0,
        forall|i: int| 0 <= i < spec_decimal(n).len() ==> is_digit(#[trigger] spec_decimal(n)[i]),
        digits_value(spec_decimal(n)) == n,
    decreases n,
{
    if n < 10 {
        lemma_digit_char(n);
        assert(spec_decimal(n).drop_last() =~= Seq::<char>::empty());
        assert(digits_value(Seq::<char>::empty()) == 0);
        assert(digits_value(spec_decimal(n)) == digits_value(spec_decimal(n).drop_last()) * 10 + digit_value(digit_char(n)));
    } else {
        lemma_digit_char(n % 10);
        lemma_decimal_digits(n / 10);
        let prefix = spec_decimal(n / 10);
        assert(spec_decimal(n).drop_last() =~= prefix);
        assert(digits_value(spec_decimal(n)) == digits_value(prefix) * 10 + digit_value(digit_char(n % 10)));
        assert(n == (n / 10) * 10 + n % 10);
        assert forall|i: int| 0 <= i < spec_decimal(n).len() implies is_digit(#[trigger] spec_decimal(n)[i]) by {
            if i < prefix.len() {
                assert(spec_decimal(n)[i] == prefix[i]);
            }
        }
    }
}

/// The character of a digit is a digit character of that value.
pub proof fn lemma_digit_char(d: nat)
    requires
        d < 10,
    ensures
        is_digit(digit_char(d)),
        digit_value(digit_char(d)) == d,
{
}

/// The decimal notation of a number is made of digits, denotes the number,
/// and has no leading zero.
pub proof fn law_decimal_canonical(n: nat)
    ensures
        all_digits(spec_decimal(n)),
        digits_value(spec_decimal(n)) == n,
        n > 0 ==> spec_decimal(n)[0] != '0',
        n == 0 ==> spec_decimal(n) == seq!['0'],
    decreases n,
{
    lemma_decimal_digits(n);
    if n >= 10 {
        law_decimal_canonical(n / 10);
        assert(spec_decimal(n)[0] == spec_decimal(n / 10)[0]);
    }
}

/// A `u16` is read from a non-empty run of digits, with or without a
/// leading `+`, as the number the digits denote when it fits; anything
/// holding another character, or nothing, is refused.
pub proof fn law_parse_u16(d: Seq<char>, i: int)
    ensures
        d.len() > 0 && all_digits(d) && digits_value(d) <= u16::MAX ==> spec_parse_u16(d) == Some(
            digits_value(d) as u16,
        ) && spec_parse_u16(seq!['+'] + d) == Some(digits_value(d) as u16),
        0 <= i < d.len() && !is_digit(d[i]) && d[i] != '+' ==> spec_parse_u16(d).is_none()
            && spec_parse_u16(seq!['+'] + d).is_none(),
        spec_parse_u16(Seq::empty()).is_none(),
        spec_parse_u16(seq!['+']).is_none(),
{
    assert((seq!['+'] + d).drop_first() =~= d);
    if d.len() > 0 && !is_digit(d[0]) {
        assert(d[0] != '+' ==> sign_stripped(d) == d);
    }
    if 0 <= i < d.len() && !is_digit(d[i]) && d[i] != '+' {
        let sd = sign_stripped(d);
        if d.len() > 0 && d[0] == '+' {
            assert(i > 0);
            assert(sd[i - 1] == d[i]);
        } else {
            assert(sd[i] == d[i]);
        }
        assert((seq!['+'] + d)[0] == '+');
    }
    assert(seq!['+'].drop_first() =~= Seq::<char>::empty());
}

/// The pieces of `list` with `sep` between each two neighbours.
pub open spec fn seq_join(list: Seq<Seq<char>>, sep: Seq<char>) -> Seq<char>
    decreases list.len(),
{
    if list.len() == 0 {
        Seq::empty()
    } else if list.len() == 1 {
        list[0]
    } else {
        seq_join(list.drop_last(), sep) + sep + list.last()
    }
}

/// Joining two non-empty lists is joining each and putting the separator
/// between the two results; a single piece is joined to itself.
pub proof fn law_join_concat(a: Seq<Seq<char>>, b: Seq<Seq<char>>, sep: Seq<char>)
    requires
        a.len() > 0,
        b.len() > 0,
    ensures
        seq_join(a + b, sep) == seq_join(a, sep) + sep + seq_join(b, sep),
        seq_join(seq![a[0]], sep) == a[0],
    decreases b.len(),
{
    assert(seq![a[0]].len() == 1);
    if b.len() == 1 {
        assert((a + b).drop_last() =~= a);
        assert((a + b).last() == b[0]);
    } else {
        law_join_concat(a, b.drop_last(), sep);
        assert((a + b).drop_last() =~= a + b.drop_last());
        assert((a + b).last() == b.last());
    }
}

/// The strings `items[lo..hi]` with `sep` between each two neighbours.
pub fn join_range(items: &Vec<String>, lo: usize, hi: usize, sep: &str) -> (res: String)
    requires
        lo <= hi <= items@.len(),
    ensures
        res@ == seq_join(strings_view(items@.subrange(lo as int, hi as int)), sep@),
{
    let mut res = String::new();
    let mut i: usize = lo;
    assert(strings_view(items@.subrange(lo as int, lo as int)) =~= Seq::<Seq<char>>::empty());
    while i < hi
        invariant
            lo <= i <= hi,
            hi <= items@.len(),
            res@ == seq_join(strings_view(items@.subrange(lo as int, i as int)), sep@),
        decreases hi - i,
    {
        let ghost done = strings_view(items@.subrange(lo as int, i as int));
        let ghost next = strings_view(items@.subrange(lo as int, i + 1));
        assert(next.drop_last() =~= done);
        assert(next.last() == items@[i as int]@);
        if i > lo {
            res.append(sep);
        } else {
            assert(next =~= seq![items@[i as int]@]);
        }
        res.append(items[i].as_str());
        i += 1;
    }
    res
}

/// The lower-case form of `s` as `str::to_lowercase` gives it (full Unicode
/// case mapping).
pub uninterp spec fn lowercase(s: Seq<char>) -> Seq<char>;

/// Calls `str::to_lowercase`. Claimed: the result is the value that
/// `lowercase` gives for the characters of `s`, which depends on them alone.
#[verifier::external_body]
pub(crate) fn to_lowercase(s: &str) -> (res: String)
    ensures
        res@ == lowercase(s@),
{
    s.to_lowercase()
}

/// Whether `s` begins with `prefix`.
pub open spec fn spec_starts_with(s: Seq<char>, prefix: Seq<char>) -> bool {
    prefix.len() <= s.len() && s.take(prefix.len() as int) == prefix
}

/// Whether `s` begins with `prefix`.
pub fn starts_with(s: &str, prefix: &str) -> (res: bool)
    ensures
        res == spec_starts_with(s@, prefix@),
{
    let x = str_chars(s);
    let p = str_chars(prefix);
    if p.len() > x.len() {
        return false;
    }
    let mut i: usize = 0;
    while i < p.len()
        invariant
            i <= p@.len(),
            p@.len() <= x@.len(),
            x@ == s@,
            p@ == prefix@,
            forall|j: int| 0 <= j < i ==> x@[j] == p@[j],
        decreases p@.len() - i,
    {
        if x[i] != p[i] {
            assert(x@.take(p@.len() as int)[i as int] != p@[i as int]);
            return false;
        }
        i += 1;
    }
    assert(x@.take(p@.len() as int) =~= p@);
    true
}

/// The characters `chars[lo..hi]` as a string.
pub fn string_of_range(chars: &Vec<char>, lo: usize, hi: usize) -> (res: String)
    requires
        lo <= hi <= chars@.len(),
    ensures
        res@ == chars@.subrange(lo as int, hi as int),
{
    let mut res = String::new();
    let mut i: usize = lo;
    while i < hi
        invariant
            lo <= i <= hi,
            hi <= chars@.len(),
            res@ =~= chars@.subrange(lo as int, i as int),
        decreases hi - i,
    {
        push_char(&mut res, chars[i]);
        i += 1;
    }
    res
}

} // verus!
