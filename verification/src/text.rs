//! Character classes and splitting of text, stated over `Seq<char>`.
use vstd::prelude::*;

verus! {

/// Unicode general category `Cc`: the C0 controls, DEL and the C1 controls.
pub open spec fn is_control(c: char) -> bool {
    (c as u32) <= 0x1f || (0x7f <= (c as u32) && (c as u32) <= 0x9f)
}

/// The Unicode `White_Space` property.
pub open spec fn is_whitespace(c: char) -> bool {
    let u = c as u32;
    ||| 0x09 <= u && u <= 0x0d
    ||| u == 0x20
    ||| u == 0x85
    ||| u == 0xa0
    ||| u == 0x1680
    ||| 0x2000 <= u && u <= 0x200a
    ||| u == 0x2028
    ||| u == 0x2029
    ||| u == 0x202f
    ||| u == 0x205f
    ||| u == 0x3000
}

/// No character of `s` is a control character.
pub open spec fn no_control(s: Seq<char>) -> bool {
    forall|i: int| 0 <= i < s.len() ==> !is_control(#[trigger] s[i])
}

/// The views of a sequence of strings.
pub open spec fn views(v: Seq<String>) -> Seq<Seq<char>> {
    v.map_values(|s: String| s@)
}

/// `i` is the position of the first occurrence of `sep` in `s`.
pub open spec fn first_at(s: Seq<char>, sep: char, i: int) -> bool {
    &&& 0 <= i < s.len()
    &&& s[i] == sep
    &&& forall|j: int| 0 <= j < i ==> s[j] != sep
}

/// What precedes and what follows the first occurrence of `sep`, if `sep` occurs.
pub open spec fn split_once(s: Seq<char>, sep: char) -> Option<(Seq<char>, Seq<char>)> {
    if exists|i: int| first_at(s, sep, i) {
        let i = choose|i: int| first_at(s, sep, i);
        Some((s.take(i), s.skip(i + 1)))
    } else {
        None
    }
}

/// The pieces of `s` between occurrences of `sep`, empty pieces included.
pub open spec fn split_all(s: Seq<char>, sep: char) -> Seq<Seq<char>>
    decreases s.len(),
{
    if exists|i: int| first_at(s, sep, i) {
        let i = choose|i: int| first_at(s, sep, i);
        seq![s.take(i)] + split_all(s.skip(i + 1), sep)
    } else {
        seq![s]
    }
}

/// The maximal runs of non-whitespace characters of `s`, read from `s` with `cur`
/// as the run begun before it.
pub open spec fn words_from(s: Seq<char>, cur: Seq<char>) -> Seq<Seq<char>>
    decreases s.len(),
{
    let done: Seq<Seq<char>> = if cur.len() == 0 {
        seq![]
    } else {
        seq![cur]
    };
    if s.len() == 0 {
        done
    } else if is_whitespace(s[0]) {
        done + words_from(s.drop_first(), seq![])
    } else {
        words_from(s.drop_first(), cur.push(s[0]))
    }
}

/// The maximal runs of non-whitespace characters of `s`, in order.
pub open spec fn split_whitespace(s: Seq<char>) -> Seq<Seq<char>> {
    words_from(s, seq![])
}

/// Number of leading whitespace characters.
pub open spec fn leading_ws(s: Seq<char>) -> nat
    decreases s.len(),
{
    if s.len() > 0 && is_whitespace(s[0]) {
        1 + leading_ws(s.drop_first())
    } else {
        0
    }
}

/// Number of trailing whitespace characters.
pub open spec fn trailing_ws(s: Seq<char>) -> nat
    decreases s.len(),
{
    if s.len() > 0 && is_whitespace(s.last()) {
        1 + trailing_ws(s.drop_last())
    } else {
        0
    }
}

/// `s` without its leading and trailing whitespace.
pub open spec fn trim(s: Seq<char>) -> Seq<char> {
    let t = s.skip(leading_ws(s) as int);
    t.take(t.len() - trailing_ws(t))
}

/// ASCII lowercase of one character; other characters unchanged.
pub open spec fn ascii_lower(c: char) -> char {
    if 'A' <= c && c <= 'Z' {
        ((c as u32) + 32) as char
    } else {
        c
    }
}

/// All characters of `s` are ASCII.
pub open spec fn all_ascii(s: Seq<char>) -> bool {
    forall|i: int| 0 <= i < s.len() ==> (#[trigger] s[i] as u32) < 0x80
}

/// `a` and `b` are equal up to ASCII case.
pub open spec fn eq_ignore_ascii_case(a: Seq<char>, b: Seq<char>) -> bool {
    &&& a.len() == b.len()
    &&& forall|i: int| 0 <= i < a.len() ==> ascii_lower(#[trigger] a[i]) == ascii_lower(b[i])
}

/// The decimal digit character for `d < 10`.
pub open spec fn digit_char(d: nat) -> char {
    ((d + 48) as u32) as char
}

/// Decimal notation of `n`, without leading zeros.
pub open spec fn decimal(n: nat) -> Seq<char>
    decreases n,
{
    if n < 10 {
        seq![digit_char(n)]
    } else {
        decimal(n / 10).push(digit_char(n % 10))
    }
}


// ---------------------------------------------------------------------------
// Laws of splitting and trimming
// ---------------------------------------------------------------------------

/// Splitting at the first `sep` cuts `s` into what precedes it, `sep` and what
/// follows, with no `sep` before the cut; without a `sep` there is no cut.
pub proof fn lemma_split_once(s: Seq<char>, sep: char)
    ensures
        match split_once(s, sep) {
            Some((a, b)) => s == a + seq![sep] + b && !a.contains(sep),
            None => !s.contains(sep),
        },
{
    match split_once(s, sep) {
        Some((a, b)) => {
            let i = choose|i: int| first_at(s, sep, i);
            assert(s =~= a + seq![sep] + b);
            assert(!a.contains(sep)) by {
                if a.contains(sep) {
                    let j = choose|j: int| 0 <= j < a.len() && a[j] == sep;
                    assert(s[j] == sep);
                }
            }
        },
        None => {
            if s.contains(sep) {
                let j = choose|j: int| 0 <= j < s.len() && s[j] == sep;
                lemma_first_exists(s, sep, j);
            }
        },
    }
}

proof fn lemma_first_exists(s: Seq<char>, sep: char, j: int)
    requires
        0 <= j < s.len(),
        s[j] == sep,
    ensures
        exists|i: int| first_at(s, sep, i),
    decreases j,
{
    if exists|k: int| 0 <= k < j && s[k] == sep {
        let k = choose|k: int| 0 <= k < j && s[k] == sep;
        lemma_first_exists(s, sep, k);
    } else {
        assert(first_at(s, sep, j));
    }
}

/// The pieces joined back with `sep` between them.
pub open spec fn join(parts: Seq<Seq<char>>, sep: char) -> Seq<char>
    decreases parts.len(),
{
    if parts.len() <= 1 {
        if parts.len() == 0 {
            Seq::empty()
        } else {
            parts[0]
        }
    } else {
        parts[0] + seq![sep] + join(parts.drop_first(), sep)
    }
}

/// Splitting at every `sep` loses nothing: there is at least one piece, the pieces
/// hold no `sep`, and joining them with `sep` gives `s` back.
pub proof fn lemma_split_all(s: Seq<char>, sep: char)
    ensures
        split_all(s, sep).len() >= 1,
        join(split_all(s, sep), sep) == s,
        forall|i: int| 0 <= i < split_all(s, sep).len() ==> !(#[trigger] split_all(s, sep)[i]).contains(sep),
    decreases s.len(),
{
    lemma_split_once(s, sep);
    let parts = split_all(s, sep);
    if exists|i: int| first_at(s, sep, i) {
        let i = choose|i: int| first_at(s, sep, i);
        let rest = s.skip(i + 1);
        lemma_split_all(rest, sep);
        let rp = split_all(rest, sep);
        assert(parts == seq![s.take(i)] + rp);
        assert(parts.drop_first() =~= rp);
        assert(s =~= s.take(i) + seq![sep] + rest);
        assert forall|j: int| 0 <= j < parts.len() implies !(#[trigger] parts[j]).contains(sep) by {
            if j > 0 {
                assert(parts[j] == rp[j - 1]);
            }
        }
    } else {
        assert(parts == seq![s]);
    }
}


proof fn lemma_leading_ws(s: Seq<char>)
    ensures
        leading_ws(s) <= s.len(),
        forall|j: int| 0 <= j < leading_ws(s) ==> is_whitespace(#[trigger] s[j]),
        leading_ws(s) < s.len() ==> !is_whitespace(s[leading_ws(s) as int]),
    decreases s.len(),
{
    if s.len() > 0 && is_whitespace(s[0]) {
        let r = s.drop_first();
        lemma_leading_ws(r);
        assert forall|j: int| 0 <= j < leading_ws(s) implies is_whitespace(#[trigger] s[j]) by {
            if j > 0 {
                assert(s[j] == r[j - 1]);
            }
        }
        if leading_ws(s) < s.len() {
            assert(s[leading_ws(s) as int] == r[leading_ws(r) as int]);
        }
    }
}

proof fn lemma_trailing_ws(s: Seq<char>)
    ensures
        trailing_ws(s) <= s.len(),
        forall|j: int| s.len() - trailing_ws(s) <= j < s.len() ==> is_whitespace(#[trigger] s[j]),
        trailing_ws(s) < s.len() ==> !is_whitespace(s[s.len() - 1 - trailing_ws(s)]),
    decreases s.len(),
{
    if s.len() > 0 && is_whitespace(s.last()) {
        let r = s.drop_last();
        lemma_trailing_ws(r);
        assert forall|j: int| s.len() - trailing_ws(s) <= j < s.len() implies is_whitespace(
            #[trigger] s[j],
        ) by {
            if j < s.len() - 1 {
                assert(s[j] == r[j]);
            }
        }
        if trailing_ws(s) < s.len() {
            assert(s[s.len() - 1 - trailing_ws(s)] == r[r.len() - 1 - trailing_ws(r)]);
        }
    }
}

/// Trimming removes whitespace at both ends and nothing else: the result is a
/// contiguous piece of `s` (from `leading_ws(s)` on), everything before and after it
/// is whitespace, and it
/// neither begins nor ends with whitespace.
pub proof fn lemma_trim(s: Seq<char>)
    ensures
        trim(s).len() > 0 ==> !is_whitespace(trim(s)[0]) && !is_whitespace(trim(s).last()),
        ({
            let a = leading_ws(s) as int;
            &&& a + trim(s).len() <= s.len()
            &&& trim(s) == s.subrange(a, a + trim(s).len())
            &&& forall|j: int| 0 <= j < a ==> is_whitespace(#[trigger] s[j])
            &&& forall|j: int| a + trim(s).len() <= j < s.len() ==> is_whitespace(#[trigger] s[j])
        }),
{
    lemma_leading_ws(s);
    let l = leading_ws(s) as int;
    let u = s.skip(l);
    lemma_trailing_ws(u);
    let t = trim(s);
    assert(t =~= s.subrange(l, l + t.len()));
    assert forall|j: int| l + t.len() <= j < s.len() implies is_whitespace(#[trigger] s[j]) by {
        assert(s[j] == u[j - l]);
    }
    if t.len() > 0 {
        assert(t[0] == u[0]);
        assert(u[0] == s[l]);
        assert(t.last() == u[u.len() - 1 - trailing_ws(u)]);
    }
}

/// The characters of `s` that are not whitespace, in order.
pub open spec fn non_whitespace(s: Seq<char>) -> Seq<char>
    decreases s.len(),
{
    if s.len() == 0 {
        Seq::empty()
    } else if is_whitespace(s[0]) {
        non_whitespace(s.drop_first())
    } else {
        seq![s[0]] + non_whitespace(s.drop_first())
    }
}

/// The pieces written one after the other.
pub open spec fn concat_all(parts: Seq<Seq<char>>) -> Seq<char>
    decreases parts.len(),
{
    if parts.len() == 0 {
        Seq::empty()
    } else {
        parts[0] + concat_all(parts.drop_first())
    }
}

proof fn lemma_concat_all_add(a: Seq<Seq<char>>, b: Seq<Seq<char>>)
    ensures
        concat_all(a + b) == concat_all(a) + concat_all(b),
    decreases a.len(),
{
    if a.len() == 0 {
        assert(a + b =~= b);
    } else {
        assert((a + b).drop_first() =~= a.drop_first() + b);
        lemma_concat_all_add(a.drop_first(), b);
    }
}

/// `cur` holds no whitespace.
pub open spec fn no_whitespace(s: Seq<char>) -> bool {
    forall|i: int| 0 <= i < s.len() ==> !is_whitespace(#[trigger] s[i])
}

proof fn lemma_words_from(s: Seq<char>, cur: Seq<char>)
    requires
        no_whitespace(cur),
    ensures
        concat_all(words_from(s, cur)) == cur + non_whitespace(s),
        forall|i: int| 0 <= i < words_from(s, cur).len() ==> (#[trigger] words_from(s, cur)[i]).len()
            > 0 && no_whitespace(words_from(s, cur)[i]),
    decreases s.len(),
{
    let done: Seq<Seq<char>> = if cur.len() == 0 {
        seq![]
    } else {
        seq![cur]
    };
    assert(concat_all(done) == cur) by {
        if cur.len() == 0 {
            assert(cur =~= Seq::<char>::empty());
            assert(done =~= Seq::<Seq<char>>::empty());
        } else {
            let one: Seq<Seq<char>> = seq![cur];
            assert(done == one);
            assert(one[0] == cur);
            assert(one.drop_first() =~= Seq::<Seq<char>>::empty());
            assert(concat_all(one.drop_first()) == Seq::<char>::empty());
            assert(cur + Seq::<char>::empty() =~= cur);
        }
    }
    if s.len() == 0 {
        assert(cur + non_whitespace(s) =~= cur);
    } else if is_whitespace(s[0]) {
        let e: Seq<char> = seq![];
        lemma_words_from(s.drop_first(), e);
        let w = words_from(s.drop_first(), e);
        lemma_concat_all_add(done, w);
        assert(e + non_whitespace(s.drop_first()) =~= non_whitespace(s.drop_first()));
        assert forall|i: int| 0 <= i < (done + w).len() implies (#[trigger] (done + w)[i]).len() > 0
            && no_whitespace((done + w)[i]) by {
            if i >= done.len() {
                assert((done + w)[i] == w[i - done.len()]);
            }
        }
    } else {
        let c2 = cur.push(s[0]);
        assert(no_whitespace(c2)) by {
            assert forall|i: int| 0 <= i < c2.len() implies !is_whitespace(#[trigger] c2[i]) by {
                if i < cur.len() {
                    assert(c2[i] == cur[i]);
                }
            }
        }
        lemma_words_from(s.drop_first(), c2);
        assert(c2 + non_whitespace(s.drop_first()) =~= cur + (seq![s[0]] + non_whitespace(
            s.drop_first(),
        )));
    }
}

/// Splitting at whitespace keeps every other character, in order, and only them:
/// the words written one after the other are `s` without its whitespace, and every
/// word is non-empty and holds no whitespace.
pub proof fn lemma_split_whitespace(s: Seq<char>)
    ensures
        concat_all(split_whitespace(s)) == non_whitespace(s),
        forall|i: int| 0 <= i < split_whitespace(s).len() ==> (#[trigger] split_whitespace(s)[i]).len()
            > 0 && no_whitespace(split_whitespace(s)[i]),
{
    let e: Seq<char> = seq![];
    lemma_words_from(s, e);
    assert(e + non_whitespace(s) =~= non_whitespace(s));
}

/// The control characters are those below the space and those from DEL to U+009F.
pub proof fn lemma_control_chars(c: char)
    ensures
        is_control(c) <==> (c < ' ' || ('\u{7f}' <= c && c <= '\u{9f}')),
{
}


proof fn lemma_char_eq_code(d: char, e: char)
    ensures
        (d as u32 == e as u32) ==> d == e,
{
    if d as u32 == e as u32 {
        vstd::utf8::char_u32_cast(d, d as u32);
        vstd::utf8::char_u32_cast(e, e as u32);
    }
}

/// The whitespace characters are exactly the 25 of the Unicode `White_Space`
/// property: tab, line feed, vertical tab, form feed, carriage return, space, next
/// line, no-break space, ogham space mark, the spaces U+2000 to U+200A, line and
/// paragraph separators, narrow no-break space, medium mathematical space and
/// ideographic space.
pub proof fn lemma_whitespace_chars(c: char)
    ensures
        is_whitespace(c) <==> "\t\n\u{b}\u{c}\r \u{85}\u{a0}\u{1680}\u{2000}\u{2001}\u{2002}\u{2003}\u{2004}\u{2005}\u{2006}\u{2007}\u{2008}\u{2009}\u{200a}\u{2028}\u{2029}\u{202f}\u{205f}\u{3000}"@.contains(c),
{
    reveal_strlit("\t\n\u{b}\u{c}\r \u{85}\u{a0}\u{1680}\u{2000}\u{2001}\u{2002}\u{2003}\u{2004}\u{2005}\u{2006}\u{2007}\u{2008}\u{2009}\u{200a}\u{2028}\u{2029}\u{202f}\u{205f}\u{3000}");
    let t = "\t\n\u{b}\u{c}\r \u{85}\u{a0}\u{1680}\u{2000}\u{2001}\u{2002}\u{2003}\u{2004}\u{2005}\u{2006}\u{2007}\u{2008}\u{2009}\u{200a}\u{2028}\u{2029}\u{202f}\u{205f}\u{3000}"@;
    assert(t =~= seq!['\t', '\n', '\u{b}', '\u{c}', '\r', ' ', '\u{85}', '\u{a0}', '\u{1680}', '\u{2000}', '\u{2001}', '\u{2002}', '\u{2003}', '\u{2004}', '\u{2005}', '\u{2006}', '\u{2007}', '\u{2008}', '\u{2009}', '\u{200a}', '\u{2028}', '\u{2029}', '\u{202f}', '\u{205f}', '\u{3000}']);
    assert forall|d: char| #[trigger] t.contains(d) <==> is_whitespace(d) by {
        if d == '\t' { assert(t[0] == d); }
        if d == '\n' { assert(t[1] == d); }
        if d == '\u{b}' { assert(t[2] == d); }
        if d == '\u{c}' { assert(t[3] == d); }
        if d == '\r' { assert(t[4] == d); }
        if d == ' ' { assert(t[5] == d); }
        if d == '\u{85}' { assert(t[6] == d); }
        if d == '\u{a0}' { assert(t[7] == d); }
        if d == '\u{1680}' { assert(t[8] == d); }
        if d == '\u{2000}' { assert(t[9] == d); }
        if d == '\u{2001}' { assert(t[10] == d); }
        if d == '\u{2002}' { assert(t[11] == d); }
        if d == '\u{2003}' { assert(t[12] == d); }
        if d == '\u{2004}' { assert(t[13] == d); }
        if d == '\u{2005}' { assert(t[14] == d); }
        if d == '\u{2006}' { assert(t[15] == d); }
        if d == '\u{2007}' { assert(t[16] == d); }
        if d == '\u{2008}' { assert(t[17] == d); }
        if d == '\u{2009}' { assert(t[18] == d); }
        if d == '\u{200a}' { assert(t[19] == d); }
        if d == '\u{2028}' { assert(t[20] == d); }
        if d == '\u{2029}' { assert(t[21] == d); }
        if d == '\u{202f}' { assert(t[22] == d); }
        if d == '\u{205f}' { assert(t[23] == d); }
        if d == '\u{3000}' { assert(t[24] == d); }
        if t.contains(d) {
            let j = choose|j: int| 0 <= j < t.len() && t[j] == d;
        }
        if is_whitespace(d) {
            let u = d as u32;
            if 0x2000 <= u && u <= 0x200a {
                let k = (u - 0x2000) as int;
                assert((t[9 + k] as u32) == u);
                lemma_char_eq_code(t[9 + k], d);
            } else {
                assert(exists|j: int| 0 <= j < t.len() && t[j] as u32 == u) by {
                    if u == 0x09 { assert(t[0] as u32 == u); }
                    if u == 0x0a { assert(t[1] as u32 == u); }
                    if u == 0x0b { assert(t[2] as u32 == u); }
                    if u == 0x0c { assert(t[3] as u32 == u); }
                    if u == 0x0d { assert(t[4] as u32 == u); }
                    if u == 0x20 { assert(t[5] as u32 == u); }
                    if u == 0x85 { assert(t[6] as u32 == u); }
                    if u == 0xa0 { assert(t[7] as u32 == u); }
                    if u == 0x1680 { assert(t[8] as u32 == u); }
                    if u == 0x2028 { assert(t[20] as u32 == u); }
                    if u == 0x2029 { assert(t[21] as u32 == u); }
                    if u == 0x202f { assert(t[22] as u32 == u); }
                    if u == 0x205f { assert(t[23] as u32 == u); }
                    if u == 0x3000 { assert(t[24] as u32 == u); }
                }
                let j = choose|j: int| 0 <= j < t.len() && t[j] as u32 == u;
                lemma_char_eq_code(t[j], d);
            }
        }
    }
}


/// ASCII lowercasing maps each of the 26 capital letters to its small letter and
/// leaves every other character as it is.
pub proof fn lemma_ascii_lower(v: int, c: char)
    ensures
        0 <= v < 26 ==> ascii_lower("ABCDEFGHIJKLMNOPQRSTUVWXYZ"@[v])
            == "abcdefghijklmnopqrstuvwxyz"@[v],
        !"ABCDEFGHIJKLMNOPQRSTUVWXYZ"@.contains(c) ==> ascii_lower(c) == c,
{
    reveal_strlit("ABCDEFGHIJKLMNOPQRSTUVWXYZ");
    reveal_strlit("abcdefghijklmnopqrstuvwxyz");
    let up = "ABCDEFGHIJKLMNOPQRSTUVWXYZ"@;
    let lo = "abcdefghijklmnopqrstuvwxyz"@;
    assert(up =~= seq!['A', 'B', 'C', 'D', 'E', 'F', 'G', 'H', 'I', 'J', 'K', 'L', 'M', 'N', 'O', 'P', 'Q', 'R', 'S', 'T', 'U', 'V', 'W', 'X', 'Y', 'Z']);
    assert(lo =~= seq!['a', 'b', 'c', 'd', 'e', 'f', 'g', 'h', 'i', 'j', 'k', 'l', 'm', 'n', 'o', 'p', 'q', 'r', 's', 't', 'u', 'v', 'w', 'x', 'y', 'z']);
    if 'A' <= c && c <= 'Z' {
        let k = (c as u32 - 65) as int;
        assert((up[k] as u32) == (c as u32));
        lemma_char_eq_code(up[k], c);
    }
}

/// Whether `c` is a control character.
pub fn char_is_control(c: char) -> (r: bool)
    ensures
        r == is_control(c),
{
    let u = c as u32;
    u <= 0x1f || (0x7f <= u && u <= 0x9f)
}

/// Whether `c` is whitespace.
pub fn char_is_whitespace(c: char) -> (r: bool)
    ensures
        r == is_whitespace(c),
{
    let u = c as u32;
    (0x09 <= u && u <= 0x0d) || u == 0x20 || u == 0x85 || u == 0xa0 || u == 0x1680 || (0x2000
        <= u && u <= 0x200a) || u == 0x2028 || u == 0x2029 || u == 0x202f || u == 0x205f || u
        == 0x3000
}

/// Appends one character to a string (`String::push`).
#[verifier::external_body]
pub(crate) fn push_char(s: &mut String, c: char)
    ensures
        final(s)@ == old(s)@.push(c),
{
    s.push(c)
}

/// The characters of `s`.
pub fn chars_of(s: &str) -> (v: Vec<char>)
    ensures
        v@ == s@,
{
    let mut v: Vec<char> = Vec::new();
    for c in it: s.chars()
        invariant
            v@ == it.seq().take(it.index() as int),
    {
        v.push(c);
    }
    v
}

/// The string made of `chars[from..to]`.
pub fn string_of(chars: &Vec<char>, from: usize, to: usize) -> (r: String)
    requires
        from <= to <= chars.len(),
    ensures
        r@ == chars@.subrange(from as int, to as int),
{
    let mut r = String::new();
    let mut i = from;
    while i < to
        invariant
            from <= i <= to <= chars.len(),
            r@ == chars@.subrange(from as int, i as int),
        decreases to - i,
    {
        push_char(&mut r, chars[i]);
        i += 1;
        assert(r@ =~= chars@.subrange(from as int, i as int));
    }
    r
}

/// Whether no character of `s` is a control character.
pub fn has_no_control(s: &str) -> (r: bool)
    ensures
        r == no_control(s@),
{
    let chars = chars_of(s);
    let n = chars.len();
    let mut i: usize = 0;
    while i < n
        invariant
            n == chars@.len(),
            chars@ == s@,
            i <= n,
            forall|j: int| 0 <= j < i ==> !is_control(#[trigger] s@[j]),
        decreases n - i,
    {
        if char_is_control(chars[i]) {
            return false;
        }
        i += 1;
    }
    true
}

/// Whether `a` and `b` hold the same characters.
pub fn str_eq(a: &str, b: &str) -> (r: bool)
    ensures
        r == (a@ == b@),
{
    let x = chars_of(a);
    let y = chars_of(b);
    if x.len() != y.len() {
        return false;
    }
    let n = x.len();
    let mut i: usize = 0;
    while i < n
        invariant
            n == x@.len() == y@.len(),
            x@ == a@,
            y@ == b@,
            i <= n,
            forall|j: int| 0 <= j < i ==> x@[j] == y@[j],
        decreases n - i,
    {
        if x[i] != y[i] {
            return false;
        }
        i += 1;
    }
    assert(a@ =~= b@);
    true
}

/// The first occurrence of `sep` in `s` splits it in two, if there is one.
pub fn split_once_char(s: &str, sep: char) -> (r: Option<(String, String)>)
    ensures
        match r {
            Some((a, b)) => split_once(s@, sep) == Some((a@, b@)),
            None => split_once(s@, sep) is None,
        },
{
    let chars = chars_of(s);
    let n = chars.len();
    let mut i: usize = 0;
    while i < n
        invariant
            n == chars@.len(),
            chars@ == s@,
            i <= n,
            forall|j: int| 0 <= j < i ==> s@[j] != sep,
        decreases n - i,
    {
        if chars[i] == sep {
            let a = string_of(&chars, 0, i);
            let b = string_of(&chars, i + 1, n);
            proof {
                assert(first_at(s@, sep, i as int));
                assert(s@.take(i as int) =~= chars@.subrange(0, i as int));
                assert(s@.skip(i + 1) =~= chars@.subrange(i + 1, n as int));
            }
            return Some((a, b));
        }
        i += 1;
    }
    None
}


/// The pieces of `s` between occurrences of `sep` (`str::split`).
pub fn split_char(s: &str, sep: char) -> (r: Vec<String>)
    ensures
        views(r@) == split_all(s@, sep),
{
    let chars = chars_of(s);
    let n = chars.len();
    let mut pieces: Vec<String> = Vec::new();
    let mut start: usize = 0;
    let mut i: usize = 0;
    assert(s@.skip(0) =~= s@);
    assert(views(pieces@) =~= Seq::<Seq<char>>::empty());
    while i < n
        invariant
            n == chars@.len(),
            chars@ == s@,
            start <= i <= n,
            forall|j: int| start <= j < i ==> s@[j] != sep,
            views(pieces@) + split_all(s@.skip(start as int), sep) == split_all(s@, sep),
        decreases n - i,
    {
        if chars[i] == sep {
            let piece = string_of(&chars, start, i);
            proof {
                let t = s@.skip(start as int);
                assert(first_at(t, sep, i - start));
                assert(t.take(i - start) =~= piece@);
                assert(t.skip(i - start + 1) =~= s@.skip(i + 1));
                assert(views(pieces@.push(piece)) =~= views(pieces@).push(piece@));
            }
            pieces.push(piece);
            start = i + 1;
        }
        i += 1;
    }
    let last = string_of(&chars, start, n);
    proof {
        let t = s@.skip(start as int);
        assert(t =~= last@);
        assert forall|k: int| !first_at(t, sep, k) by {
            if 0 <= k < t.len() {
                assert(t[k] == s@[start + k]);
            }
        }
        assert(views(pieces@.push(last)) =~= views(pieces@).push(last@));
    }
    pieces.push(last);
    pieces
}

/// The maximal runs of non-whitespace characters of `s` (`str::split_whitespace`).
pub fn split_whitespace_str(s: &str) -> (r: Vec<String>)
    ensures
        views(r@) == split_whitespace(s@),
{
    let chars = chars_of(s);
    let n = chars.len();
    let mut pieces: Vec<String> = Vec::new();
    let mut start: usize = 0;
    let mut i: usize = 0;
    assert(s@.skip(0) =~= s@);
    assert(s@.subrange(0, 0) =~= Seq::<char>::empty());
    while i < n
        invariant
            n == chars@.len(),
            chars@ == s@,
            start <= i <= n,
            views(pieces@) + words_from(s@.skip(i as int), s@.subrange(start as int, i as int))
                == split_whitespace(s@),
        decreases n - i,
    {
        let ghost cur = s@.subrange(start as int, i as int);
        let ghost rest = s@.skip(i as int);
        assert(rest.drop_first() =~= s@.skip(i + 1));
        if char_is_whitespace(chars[i]) {
            if start < i {
                let piece = string_of(&chars, start, i);
                proof {
                    assert(views(pieces@.push(piece)) =~= views(pieces@).push(piece@));
                    assert(views(pieces@).push(piece@) + words_from(rest.drop_first(), seq![])
                        =~= views(pieces@) + (seq![cur] + words_from(rest.drop_first(), seq![])));
                }
                pieces.push(piece);
            } else {
                assert(cur.len() == 0);
                assert(Seq::<Seq<char>>::empty() + words_from(rest.drop_first(), seq![])
                    =~= words_from(rest.drop_first(), seq![]));
            }
            start = i + 1;
            assert(s@.subrange(start as int, i + 1) =~= Seq::<char>::empty());
        } else {
            assert(cur.push(s@[i as int]) =~= s@.subrange(start as int, i + 1));
        }
        i += 1;
    }
    let ghost cur = s@.subrange(start as int, n as int);
    assert(s@.skip(n as int) =~= Seq::<char>::empty());
    if start < n {
        let piece = string_of(&chars, start, n);
        assert(views(pieces@.push(piece)) =~= views(pieces@) + seq![cur]);
        pieces.push(piece);
    } else {
        assert(views(pieces@) + Seq::<Seq<char>>::empty() =~= views(pieces@));
    }
    pieces
}

/// `s` without leading and trailing whitespace (`str::trim`).
pub fn trim_str(s: &str) -> (r: String)
    ensures
        r@ == trim(s@),
{
    let chars = chars_of(s);
    let n = chars.len();
    let mut lo: usize = 0;
    assert(s@.skip(0) =~= s@);
    while lo < n && char_is_whitespace(chars[lo])
        invariant
            n == chars@.len(),
            chars@ == s@,
            lo <= n,
            leading_ws(s@) == lo + leading_ws(s@.skip(lo as int)),
        decreases n - lo,
    {
        assert(s@.skip(lo as int).drop_first() =~= s@.skip(lo + 1));
        lo += 1;
    }
    let ghost t = s@.skip(lo as int);
    let mut hi: usize = n;
    assert(t.take(t.len() as int) =~= t);
    while hi > lo && char_is_whitespace(chars[hi - 1])
        invariant
            n == chars@.len(),
            chars@ == s@,
            lo <= hi <= n,
            t == s@.skip(lo as int),
            leading_ws(s@) == lo,
            trailing_ws(t) == (n - hi) + trailing_ws(t.take(hi - lo)),
        decreases hi,
    {
        assert(t.take(hi - lo).drop_last() =~= t.take(hi - 1 - lo));
        hi -= 1;
    }
    let r = string_of(&chars, lo, hi);
    assert(r@ =~= trim(s@));
    r
}

/// Whether `a` and `b` are equal up to ASCII case (`str::eq_ignore_ascii_case`).
pub fn str_eq_ignore_ascii_case(a: &str, b: &str) -> (r: bool)
    ensures
        r == eq_ignore_ascii_case(a@, b@),
{
    let x = chars_of(a);
    let y = chars_of(b);
    if x.len() != y.len() {
        return false;
    }
    let n = x.len();
    let mut i: usize = 0;
    while i < n
        invariant
            n == x@.len() == y@.len(),
            x@ == a@,
            y@ == b@,
            i <= n,
            forall|j: int| 0 <= j < i ==> ascii_lower(#[trigger] a@[j]) == ascii_lower(b@[j]),
        decreases n - i,
    {
        if char_ascii_lower(x[i]) != char_ascii_lower(y[i]) {
            return false;
        }
        i += 1;
    }
    true
}

/// ASCII lowercase of one character.
pub fn char_ascii_lower(c: char) -> (r: char)
    ensures
        r == ascii_lower(c),
{
    if 'A' <= c && c <= 'Z' {
        ((c as u8) + 32) as char
    } else {
        c
    }
}

/// Decimal notation of `n`.
pub fn decimal_string(n: u64) -> (r: String)
    ensures
        r@ == decimal(n as nat),
    decreases n,
{
    if n < 10 {
        let mut s = String::new();
        push_char(&mut s, digit(n));
        s
    } else {
        let mut s = decimal_string(n / 10);
        push_char(&mut s, digit(n % 10));
        s
    }
}

/// The digit character for `d < 10`.
fn digit(d: u64) -> (c: char)
    requires
        d < 10,
    ensures
        c == digit_char(d as nat),
{
    ((d as u8) + 48) as char
}


/// Unicode lowercase mapping of a text (`str::to_lowercase`), which maps some
/// characters to several.
pub uninterp spec fn unicode_lowercase(s: Seq<char>) -> Seq<char>;

/// The lowercase form of `s` (`str::to_lowercase`). Its result is named by
/// `unicode_lowercase`; of it this states only that ASCII text is lowercased
/// character by character in the ASCII way.
#[verifier::external_body]
pub(crate) fn to_lowercase(s: &str) -> (r: String)
    ensures
        r@ == unicode_lowercase(s@),
        all_ascii(s@) ==> r@ == s@.map_values(|c: char| ascii_lower(c)),
{
    s.to_lowercase()
}

} // verus!
