//! Text handling of the configuration values: splitting on whitespace,
//! reading unsigned integers, and the `/avatar/parameters/` prefix.
use vstd::prelude::*;

verus! {

/// Whether `c` has the Unicode White_Space property (what
/// `char::is_whitespace` tests): tab, line feed, vertical tab, form feed,
/// carriage return, space, next line, no-break space, ogham space mark,
/// the spaces U+2000 to U+200A, line and paragraph separators, narrow
/// no-break space, medium mathematical space and ideographic space.
pub open spec fn spec_is_whitespace(c: char) -> bool {
    let u = c as u32;
    ||| 0x09 <= u <= 0x0D
    ||| u == 0x20
    ||| u == 0x85
    ||| u == 0xA0
    ||| u == 0x1680
    ||| 0x2000 <= u <= 0x200A
    ||| u == 0x2028
    ||| u == 0x2029
    ||| u == 0x202F
    ||| u == 0x205F
    ||| u == 0x3000
}

/// Whether `c` is whitespace.
pub fn is_whitespace(c: char) -> (r: bool)
    ensures
        r == spec_is_whitespace(c),
{
    let u = c as u32;
    (0x09 <= u && u <= 0x0D) || u == 0x20 || u == 0x85 || u == 0xA0 || u == 0x1680 || (0x2000
        <= u && u <= 0x200A) || u == 0x2028 || u == 0x2029 || u == 0x202F || u == 0x205F || u
        == 0x3000
}

/// `String::push`: appends one character.
#[verifier::external_body]
fn push_char(s: &mut String, c: char)
    ensures
        final(s)@ == old(s)@.push(c),
{
    s.push(c)
}

/// Tokens completed so far and the token in progress, reading `s` from
/// the left, where `sep[i]` says whether `s[i]` separates tokens.
pub open spec fn split_state(s: Seq<char>, sep: Seq<bool>) -> (Seq<Seq<char>>, Seq<char>)
    decreases s.len(),
{
    if s.len() == 0 || sep.len() == 0 {
        (Seq::empty(), Seq::empty())
    } else {
        let (tokens, cur) = split_state(s.drop_last(), sep.drop_last());
        if sep.last() {
            if cur.len() > 0 {
                (tokens.push(cur), Seq::empty())
            } else {
                (tokens, Seq::empty())
            }
        } else {
            (tokens, cur.push(s.last()))
        }
    }
}

/// The maximal runs of characters of `s` that are not separators, in order.
pub open spec fn spec_split_at(s: Seq<char>, sep: Seq<bool>) -> Seq<Seq<char>> {
    let (tokens, cur) = split_state(s, sep);
    if cur.len() > 0 {
        tokens.push(cur)
    } else {
        tokens
    }
}

/// For each character of `s`, whether it is whitespace.
pub open spec fn whitespace_flags(s: Seq<char>) -> Seq<bool> {
    s.map_values(|c: char| spec_is_whitespace(c))
}

/// The maximal runs of non-whitespace characters of `s`, in order
/// (what `str::split_whitespace` yields).
pub open spec fn spec_split_whitespace(s: Seq<char>) -> Seq<Seq<char>> {
    spec_split_at(s, whitespace_flags(s))
}

/// A word: a non-empty run of characters none of which is whitespace.
pub open spec fn is_word(w: Seq<char>) -> bool {
    &&& w.len() > 0
    &&& forall|i: int| 0 <= i < w.len() ==> !spec_is_whitespace(#[trigger] w[i])
}

proof fn lemma_split_state_words(s: Seq<char>, sep: Seq<bool>)
    requires
        sep.len() == s.len(),
        forall|i: int| 0 <= i < s.len() && !sep[i] ==> !spec_is_whitespace(#[trigger] s[i]),
    ensures
        forall|i: int|
            0 <= i < split_state(s, sep).0.len() ==> is_word(#[trigger] split_state(s, sep).0[i]),
        forall|i: int|
            0 <= i < split_state(s, sep).1.len() ==> !spec_is_whitespace(#[trigger] split_state(s, sep).1[i]),
    decreases s.len(),
{
    if s.len() > 0 {
        assert forall|i: int| 0 <= i < s.drop_last().len() && !sep.drop_last()[i] implies !spec_is_whitespace(
            #[trigger] s.drop_last()[i],
        ) by {
            assert(s.drop_last()[i] == s[i]);
        }
        lemma_split_state_words(s.drop_last(), sep.drop_last());
        let (tokens, cur) = split_state(s.drop_last(), sep.drop_last());
        let c = s.last();
        if !sep.last() {
            assert(!spec_is_whitespace(s[s.len() - 1]));
            assert forall|i: int| 0 <= i < cur.push(c).len() implies !spec_is_whitespace(
                #[trigger] cur.push(c)[i],
            ) by {
                if i < cur.len() {
                    assert(cur.push(c)[i] == cur[i]);
                }
            }
        }
    }
}

/// Every token that whitespace splitting yields is a word.
pub proof fn lemma_split_whitespace_words(s: Seq<char>)
    ensures
        forall|i: int|
            0 <= i < spec_split_whitespace(s).len() ==> is_word(
                #[trigger] spec_split_whitespace(s)[i],
            ),
{
    lemma_split_state_words(s, whitespace_flags(s));
}

/// Splits `s` into the maximal runs of characters whose flag in `sep` is
/// not set, in order.
pub fn split_at_flags(s: &str, sep: &Vec<bool>) -> (r: Vec<String>)
    requires
        sep@.len() == s@.len(),
    ensures
        r@.map_values(|t: String| t@) == spec_split_at(s@, sep@),
{
    let n = s.unicode_len();
    let mut tokens: Vec<String> = Vec::new();
    let mut cur = String::new();
    let mut i: usize = 0;
    while i < n
        invariant
            n == s@.len(),
            sep@.len() == n,
            i <= n,
            tokens@.map_values(|t: String| t@) == split_state(s@.take(i as int), sep@.take(i as int)).0,
            cur@ == split_state(s@.take(i as int), sep@.take(i as int)).1,
        decreases n - i,
    {
        let c = s.get_char(i);
        proof {
            assert(s@.take(i + 1).drop_last() =~= s@.take(i as int));
            assert(sep@.take(i + 1).drop_last() =~= sep@.take(i as int));
            assert(s@.take(i + 1).last() == c);
            assert(sep@.take(i + 1).last() == sep@[i as int]);
        }
        if sep[i] {
            if cur.unicode_len() > 0 {
                let done = cur;
                tokens.push(done);
                cur = String::new();
                assert(tokens@.map_values(|t: String| t@) =~= split_state(
                    s@.take(i + 1),
                    sep@.take(i + 1),
                ).0);
            }
        } else {
            push_char(&mut cur, c);
        }
        i = i + 1;
    }
    assert(s@.take(n as int) =~= s@);
    assert(sep@.take(n as int) =~= sep@);
    if cur.unicode_len() > 0 {
        tokens.push(cur);
    }
    assert(tokens@.map_values(|t: String| t@) =~= spec_split_at(s@, sep@));
    tokens
}

/// Splits `s` into its whitespace-separated words
/// (`str::split_whitespace`).
pub fn split_whitespace(s: &str) -> (r: Vec<String>)
    ensures
        r@.map_values(|t: String| t@) == spec_split_whitespace(s@),
        forall|i: int| 0 <= i < r@.len() ==> is_word(#[trigger] r@[i]@),
{
    let n = s.unicode_len();
    let mut sep: Vec<bool> = Vec::new();
    let mut i: usize = 0;
    while i < n
        invariant
            n == s@.len(),
            i <= n,
            sep@ == whitespace_flags(s@).take(i as int),
        decreases n - i,
    {
        let c = s.get_char(i);
        sep.push(is_whitespace(c));
        assert(sep@ =~= whitespace_flags(s@).take(i + 1));
        i = i + 1;
    }
    assert(sep@ =~= whitespace_flags(s@));
    let tokens = split_at_flags(s, &sep);
    proof {
        lemma_split_whitespace_words(s@);
        assert(tokens@.map_values(|t: String| t@) == spec_split_whitespace(s@));
        assert forall|k: int| 0 <= k < tokens@.len() implies is_word(#[trigger] tokens@[k]@) by {
            assert(tokens@.map_values(|t: String| t@)[k] == tokens@[k]@);
            assert(spec_split_whitespace(s@)[k] == tokens@[k]@);
        }
    }
    tokens
}

/// Whether `c` is one of the ASCII digits `0` to `9`.
pub open spec fn is_digit(c: char) -> bool {
    '0' <= c <= '9'
}

/// The number that a string of decimal digits denotes.
pub open spec fn digits_value(d: Seq<char>) -> nat
    decreases d.len(),
{
    if d.len() == 0 {
        0
    } else {
        digits_value(d.drop_last()) * 10 + (d.last() as nat - '0' as nat) as nat
    }
}

/// Whether every character of `d` is a decimal digit.
pub open spec fn all_digits(d: Seq<char>) -> bool {
    forall|i: int| 0 <= i < d.len() ==> is_digit(#[trigger] d[i])
}

/// `s` without one leading `+`, if it has one.
pub open spec fn without_plus(s: Seq<char>) -> Seq<char> {
    if s.len() > 0 && s[0] == '+' {
        s.drop_first()
    } else {
        s
    }
}

/// What `str::parse::<u64>` gives: an optional `+` followed by at least
/// one decimal digit and nothing else, denoting a number that fits in
/// `u64`; `None` for every other string.
pub open spec fn spec_parse_u64(s: Seq<char>) -> Option<u64> {
    let d = without_plus(s);
    if d.len() > 0 && all_digits(d) && digits_value(d) <= u64::MAX {
        Some(digits_value(d) as u64)
    } else {
        None
    }
}

proof fn lemma_digits_value_monotone(d: Seq<char>, k: int)
    requires
        0 <= k <= d.len(),
        forall|i: int| 0 <= i < d.len() ==> is_digit(#[trigger] d[i]),
    ensures
        digits_value(d.take(k)) <= digits_value(d),
    decreases d.len() - k,
{
    if k < d.len() {
        lemma_digits_value_monotone(d, k + 1);
        assert(d.take(k + 1).drop_last() =~= d.take(k));
    } else {
        assert(d.take(k) =~= d);
    }
}

/// Reads an unsigned decimal number as `str::parse::<u64>` does.
pub fn parse_u64(s: &str) -> (r: Option<u64>)
    ensures
        r == spec_parse_u64(s@),
{
    let n = s.unicode_len();
    let start: usize = if n > 0 && s.get_char(0) == '+' {
        1
    } else {
        0
    };
    let ghost d = without_plus(s@);
    assert(d =~= s@.subrange(start as int, n as int));
    if start == n {
        return None;
    }
    let mut value: u64 = 0;
    let mut i: usize = start;
    while i < n
        invariant
            n == s@.len(),
            start <= i <= n,
            d =~= s@.subrange(start as int, n as int),
            d == without_plus(s@),
            forall|k: int| 0 <= k < i - start ==> is_digit(#[trigger] d[k]),
            value as nat == digits_value(d.take(i - start)),
        decreases n - i,
    {
        let c = s.get_char(i);
        assert(d[i - start] == c);
        if !('0' <= c && c <= '9') {
            assert(!is_digit(d[i - start]));
            return None;
        }
        let digit: u64 = (c as u32 - '0' as u32) as u64;
        assert(d.take(i + 1 - start).drop_last() =~= d.take(i - start));
        assert(d.take(i + 1 - start).last() == c);
        let times_ten = value.checked_mul(10);
        let next = match times_ten {
            None => None,
            Some(t) => t.checked_add(digit),
        };
        match next {
            None => {
                proof {
                    assert(digits_value(d.take(i + 1 - start)) == value * 10 + digit);
                    assert(digits_value(d.take(i + 1 - start)) > u64::MAX);
                    if all_digits(d) {
                        lemma_digits_value_monotone(d, i + 1 - start);
                    }
                }
                return None;
            },
            Some(v) => {
                value = v;
            },
        }
        i = i + 1;
    }
    assert(d.take(n - start) =~= d);
    Some(value)
}

/// The address prefix under which an avatar publishes its parameters.
pub open spec fn avatar_prefix() -> Seq<char> {
    seq!['/', 'a', 'v', 'a', 't', 'a', 'r', '/', 'p', 'a', 'r', 'a', 'm', 'e', 't', 'e', 'r', 's', '/']
}

/// The OSC address of the avatar parameter called `name`
/// (`format!("/avatar/parameters/{}", name)`).
pub fn avatar_parameter(name: &str) -> (r: String)
    ensures
        r@ == avatar_prefix() + name@,
{
    proof {
        reveal_strlit("/avatar/parameters/");
    }
    let prefix = String::from_str("/avatar/parameters/");
    assert(prefix@ =~= avatar_prefix());
    prefix.concat(name)
}

/// `s` with every leading repetition of `p` removed
/// (what `str::trim_start_matches` gives for a string pattern).
pub open spec fn trim_start_all(s: Seq<char>, p: Seq<char>) -> Seq<char>
    decreases s.len(),
{
    if p.len() > 0 && p.len() <= s.len() && s.take(p.len() as int) == p {
        trim_start_all(s.skip(p.len() as int), p)
    } else {
        s
    }
}

/// Whether `p` occurs in `s` at character position `at`.
fn occurs_at(s: &str, p: &str, at: usize) -> (r: bool)
    requires
        at <= s@.len(),
    ensures
        r == (at + p@.len() <= s@.len() && s@.subrange(at as int, at + p@.len()) == p@),
{
    let n = s.unicode_len();
    let m = p.unicode_len();
    if m > n - at {
        return false;
    }
    let mut k: usize = 0;
    while k < m
        invariant
            n == s@.len(),
            m == p@.len(),
            at + m <= n,
            k <= m,
            forall|j: int| 0 <= j < k ==> s@[at + j] == p@[j],
        decreases m - k,
    {
        if s.get_char(at + k) != p.get_char(k) {
            assert(s@.subrange(at as int, at + m)[k as int] != p@[k as int]);
            return false;
        }
        k = k + 1;
    }
    assert(s@.subrange(at as int, at + m) =~= p@);
    true
}

/// Removes every leading repetition of `p` from `s`
/// (`str::trim_start_matches` with a string pattern).
pub fn trim_start_matches(s: &str, p: &str) -> (r: String)
    ensures
        r@ == trim_start_all(s@, p@),
{
    let n = s.unicode_len();
    let m = p.unicode_len();
    let mut at: usize = 0;
    assert(s@.skip(0) =~= s@);
    if m > 0 {
        while occurs_at(s, p, at)
            invariant
                n == s@.len(),
                m == p@.len(),
                m > 0,
                at <= n,
                trim_start_all(s@, p@) == trim_start_all(s@.skip(at as int), p@),
            decreases n - at,
        {
            proof {
                let rest = s@.skip(at as int);
                assert(rest.take(m as int) =~= s@.subrange(at as int, at + m));
                assert(rest.skip(m as int) =~= s@.skip(at + m));
            }
            at = at + m;
        }
        proof {
            let rest = s@.skip(at as int);
            if m <= rest.len() {
                assert(rest.take(m as int) =~= s@.subrange(at as int, at + m));
            }
        }
    } else {
        assert(s@.skip(0) =~= s@);
    }
    let r = String::from_str(s.substring_char(at, n));
    assert(r@ =~= s@.skip(at as int));
    r
}

/// The name of an avatar parameter: its address with the
/// `/avatar/parameters/` prefix trimmed, as shown in the device listing.
pub fn parameter_name(address: &str) -> (r: String)
    ensures
        r@ == trim_start_all(address@, avatar_prefix()),
{
    proof {
        reveal_strlit("/avatar/parameters/");
    }
    let prefix = "/avatar/parameters/";
    assert(prefix@ =~= avatar_prefix());
    trim_start_matches(address, prefix)
}

/// `host:port`, the socket address of a host and a port
/// (`format!("{}:{}", host, port)`).
pub fn host_port(host: &str, port: &str) -> (r: String)
    ensures
        r@ == host@ + seq![':'] + port@,
{
    proof {
        reveal_strlit(":");
    }
    let with_colon = String::from_str(host).concat(":");
    assert(":"@ =~= seq![':']);
    with_colon.concat(port)
}

/// Trimming the prefix from an avatar parameter address gives back the
/// parameter's name, for every name that does not itself begin with the
/// prefix.
pub proof fn lemma_parameter_name_of_address(name: Seq<char>)
    requires
        !(avatar_prefix().len() <= name.len() && name.take(avatar_prefix().len() as int) == avatar_prefix()),
    ensures
        trim_start_all(avatar_prefix() + name, avatar_prefix()) == name,
{
    let p = avatar_prefix();
    let s = p + name;
    assert(s.take(p.len() as int) =~= p);
    assert(s.skip(p.len() as int) =~= name);
    assert(trim_start_all(s, p) == trim_start_all(name, p));
}

/// Space, tab, line feed and carriage return are whitespace; ASCII
/// letters, digits and the punctuation of addresses (`.`, `/`, `:`, `_`,
/// `-`) are not.
pub proof fn lemma_whitespace_examples(c: char)
    ensures
        spec_is_whitespace(' '),
        spec_is_whitespace('\t'),
        spec_is_whitespace('\n'),
        spec_is_whitespace('\r'),
        ('0' <= c <= '9' || 'a' <= c <= 'z' || 'A' <= c <= 'Z' || c == '.' || c == '/' || c == ':'
            || c == '_' || c == '-') ==> !spec_is_whitespace(c),
{
}

proof fn lemma_flags_drop_last(s: Seq<char>)
    requires
        s.len() > 0,
    ensures
        whitespace_flags(s).drop_last() == whitespace_flags(s.drop_last()),
        whitespace_flags(s).last() == spec_is_whitespace(s.last()),
        whitespace_flags(s).len() == s.len(),
{
    assert(whitespace_flags(s).drop_last() =~= whitespace_flags(s.drop_last()));
}

/// The characters of `s` that are not whitespace, in order.
pub open spec fn without_whitespace(s: Seq<char>) -> Seq<char> {
    s.filter(|c: char| !spec_is_whitespace(c))
}

proof fn lemma_without_whitespace_step(s: Seq<char>)
    requires
        s.len() > 0,
    ensures
        without_whitespace(s) == if spec_is_whitespace(s.last()) {
            without_whitespace(s.drop_last())
        } else {
            without_whitespace(s.drop_last()).push(s.last())
        },
{
    reveal(Seq::filter);
}

proof fn lemma_split_state_keeps_characters(s: Seq<char>)
    ensures
        split_state(s, whitespace_flags(s)).0.flatten_alt() + split_state(s, whitespace_flags(s)).1
            == without_whitespace(s),
    decreases s.len(),
{
    if s.len() == 0 {
        reveal(Seq::filter);
        assert(split_state(s, whitespace_flags(s)).0.flatten_alt() + split_state(s, whitespace_flags(s)).1
            =~= without_whitespace(s));
    } else {
        lemma_flags_drop_last(s);
        lemma_without_whitespace_step(s);
        lemma_split_state_keeps_characters(s.drop_last());
        let (tokens, cur) = split_state(s.drop_last(), whitespace_flags(s.drop_last()));
        let c = s.last();
        let st = split_state(s, whitespace_flags(s));
        if spec_is_whitespace(c) {
            if cur.len() > 0 {
                assert(tokens.push(cur).drop_last() =~= tokens);
                assert(st.0.flatten_alt() == tokens.flatten_alt() + cur);
            }
            assert(st.0.flatten_alt() + st.1 =~= tokens.flatten_alt() + cur);
        } else {
            assert(st.0.flatten_alt() + st.1 =~= (tokens.flatten_alt() + cur).push(c));
        }
    }
}

/// Splitting on whitespace keeps every character that is not whitespace,
/// in order, and nothing else: the words, put back together, are the text
/// without its whitespace.
pub proof fn lemma_split_whitespace_keeps_characters(s: Seq<char>)
    ensures
        spec_split_whitespace(s).flatten_alt() == without_whitespace(s),
{
    lemma_split_state_keeps_characters(s);
    let (tokens, cur) = split_state(s, whitespace_flags(s));
    if cur.len() > 0 {
        assert(tokens.push(cur).drop_last() =~= tokens);
    } else {
        assert(tokens.flatten_alt() + cur =~= tokens.flatten_alt());
    }
}

proof fn lemma_split_state_after_whitespace(a: Seq<char>, w: char, b: Seq<char>)
    requires
        spec_is_whitespace(w),
    ensures
        split_state(a.push(w) + b, whitespace_flags(a.push(w) + b)).0 == spec_split_whitespace(a)
            + split_state(b, whitespace_flags(b)).0,
        split_state(a.push(w) + b, whitespace_flags(a.push(w) + b)).1 == split_state(b, whitespace_flags(b)).1,
    decreases b.len(),
{
    let t = a.push(w) + b;
    if b.len() == 0 {
        assert(t =~= a.push(w));
        lemma_flags_drop_last(t);
        assert(t.drop_last() =~= a);
        let (tokens, cur) = split_state(a, whitespace_flags(a));
        if cur.len() > 0 {
            assert(split_state(t, whitespace_flags(t)).0 =~= spec_split_whitespace(a) + Seq::<Seq<char>>::empty());
        } else {
            assert(split_state(t, whitespace_flags(t)).0 =~= spec_split_whitespace(a) + Seq::<Seq<char>>::empty());
        }
        assert(split_state(b, whitespace_flags(b)).0 =~= Seq::<Seq<char>>::empty());
    } else {
        lemma_split_state_after_whitespace(a, w, b.drop_last());
        lemma_flags_drop_last(t);
        lemma_flags_drop_last(b);
        assert(t.drop_last() =~= a.push(w) + b.drop_last());
        assert(t.last() == b.last());
        let (tb, cb) = split_state(b.drop_last(), whitespace_flags(b.drop_last()));
        let pre = spec_split_whitespace(a);
        if spec_is_whitespace(b.last()) && cb.len() > 0 {
            assert((pre + tb).push(cb) =~= pre + tb.push(cb));
        }
    }
}

/// A whitespace character separates: the words of `a`, a whitespace
/// character and `b` are the words of `a` followed by the words of `b`.
pub proof fn lemma_split_whitespace_separates(a: Seq<char>, w: char, b: Seq<char>)
    requires
        spec_is_whitespace(w),
    ensures
        spec_split_whitespace(a.push(w) + b) == spec_split_whitespace(a) + spec_split_whitespace(b),
{
    lemma_split_state_after_whitespace(a, w, b);
    let (tb, cb) = split_state(b, whitespace_flags(b));
    let pre = spec_split_whitespace(a);
    if cb.len() > 0 {
        assert((pre + tb).push(cb) =~= pre + tb.push(cb));
    }
}

/// A word on its own is its only word.
pub proof fn lemma_split_whitespace_of_word(s: Seq<char>)
    requires
        is_word(s),
    ensures
        spec_split_whitespace(s) == seq![s],
{
    lemma_split_state_of_non_whitespace(s);
    assert(Seq::<Seq<char>>::empty().push(s) =~= seq![s]);
}

proof fn lemma_split_state_of_non_whitespace(s: Seq<char>)
    requires
        forall|i: int| 0 <= i < s.len() ==> !spec_is_whitespace(#[trigger] s[i]),
    ensures
        split_state(s, whitespace_flags(s)).0 == Seq::<Seq<char>>::empty(),
        split_state(s, whitespace_flags(s)).1 == s,
    decreases s.len(),
{
    if s.len() > 0 {
        lemma_flags_drop_last(s);
        assert forall|i: int| 0 <= i < s.drop_last().len() implies !spec_is_whitespace(#[trigger] s.drop_last()[i]) by {
            assert(s.drop_last()[i] == s[i]);
        }
        lemma_split_state_of_non_whitespace(s.drop_last());
        assert(!spec_is_whitespace(s[s.len() - 1]));
        assert(s.drop_last().push(s.last()) =~= s);
    } else {
        assert(split_state(s, whitespace_flags(s)).1 =~= s);
    }
}

/// Reading the numeral of a number: the decimal digits of `n`, read
/// back, give `n` where it fits in `u64`, with or without a leading `+`,
/// and nothing where it does not; a text with a character that is
/// neither a digit nor `+` gives nothing.
pub proof fn lemma_parse_u64_numerals(d: Seq<char>, text: Seq<char>)
    requires
        d.len() > 0,
        all_digits(d),
    ensures
        digits_value(d) <= u64::MAX ==> spec_parse_u64(d) == Some(digits_value(d) as u64),
        digits_value(d) <= u64::MAX ==> spec_parse_u64(seq!['+'] + d) == Some(digits_value(d) as u64),
        digits_value(d) > u64::MAX ==> spec_parse_u64(d) is None,
        d.len() == 1 ==> digits_value(d) == (d[0] as nat - '0' as nat) as nat,
        digits_value(d.push('0')) == digits_value(d) * 10,
        (exists|i: int| 0 <= i < text.len() && !is_digit(#[trigger] text[i]) && text[i] != '+')
            ==> spec_parse_u64(text) is None,
        spec_parse_u64(Seq::<char>::empty()) is None,
        spec_parse_u64(seq!['+']) is None,
{
    assert(d[0] != '+');
    assert((seq!['+'] + d).drop_first() =~= d);
    if d.len() == 1 {
        assert(d.drop_last() =~= Seq::<char>::empty());
        assert(d.last() == d[0]);
    }
    assert(d.push('0').drop_last() =~= d);
    assert(seq!['+'].drop_first() =~= Seq::<char>::empty());
    if exists|i: int| 0 <= i < text.len() && !is_digit(#[trigger] text[i]) && text[i] != '+' {
        let i = choose|i: int| 0 <= i < text.len() && !is_digit(#[trigger] text[i]) && text[i] != '+';
        let w = without_plus(text);
        if text.len() > 0 && text[0] == '+' {
            assert(w[i - 1] == text[i]);
        } else {
            assert(w[i] == text[i]);
        }
    }
}

/// Trimming the prefix leaves a suffix of the text that does not start
/// with the prefix (for a non-empty prefix), and leaves a text that does
/// not start with it unchanged.
pub proof fn lemma_trim_start_all(s: Seq<char>, p: Seq<char>)
    requires
        p.len() > 0,
    ensures
        trim_start_all(s, p).len() <= s.len(),
        trim_start_all(s, p) == s.skip(s.len() - trim_start_all(s, p).len()),
        !(p.len() <= trim_start_all(s, p).len() && trim_start_all(s, p).take(p.len() as int) == p),
        !(p.len() <= s.len() && s.take(p.len() as int) == p) ==> trim_start_all(s, p) == s,
        trim_start_all(p + s, p) == trim_start_all(s, p),
    decreases s.len(),
{
    let ps = p + s;
    assert(ps.take(p.len() as int) =~= p);
    assert(ps.skip(p.len() as int) =~= s);
    if p.len() <= s.len() && s.take(p.len() as int) == p {
        lemma_trim_start_all(s.skip(p.len() as int), p);
        let r = trim_start_all(s, p);
        assert(s.skip(p.len() as int).skip(s.skip(p.len() as int).len() - r.len()) =~= s.skip(s.len() - r.len()));
    } else {
        assert(s.skip(0) =~= s);
    }
}

} // verus!
