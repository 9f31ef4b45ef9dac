use vstd::prelude::*;

verus! {

/// Appends one character to a string (`String::push`).
/// Trusted: the string afterwards reads as before, followed by `c`.
#[verifier::external_body]
fn push_char(s: &mut String, c: char)
    ensures
        final(s)@ == old(s)@.push(c),
{
    s.push(c);
}

/// The characters of `s`, in order.
pub fn chars_of(s: &str) -> (v: Vec<char>)
    ensures
        v@ == s@,
{
    let mut v: Vec<char> = Vec::new();
    for c in it: s.chars()
        invariant
            v@ == it.seq().take(it.index() as int),
            it.seq() == s@,
    {
        v.push(c);
    }
    v
}

/// The string made of the characters in `v`, in order.
pub fn string_of(v: &[char]) -> (s: String)
    ensures
        s@ == v@,
{
    let mut s = String::new();
    let n = v.len();
    for i in 0..n
        invariant
            n == v@.len(),
            s@ == v@.take(i as int),
    {
        push_char(&mut s, v[i]);
        assert(v@.take(i as int).push(v@[i as int]) =~= v@.take(i + 1));
    }
    assert(v@.take(n as int) =~= v@);
    s
}


/// Unicode `White_Space`: the characters that `str::trim` removes.
pub open spec fn is_white_space(c: char) -> bool {
    let v = c as u32;
    ||| 0x9 <= v <= 0xD
    ||| v == 0x20
    ||| v == 0x85
    ||| v == 0xA0
    ||| v == 0x1680
    ||| 0x2000 <= v <= 0x200A
    ||| v == 0x2028
    ||| v == 0x2029
    ||| v == 0x202F
    ||| v == 0x205F
    ||| v == 0x3000
}

/// `s` without its leading white space.
pub open spec fn trim_start(s: Seq<char>) -> Seq<char>
    decreases s.len(),
{
    if s.len() > 0 && is_white_space(s[0]) {
        trim_start(s.drop_first())
    } else {
        s
    }
}

/// `s` without its trailing white space.
pub open spec fn trim_end(s: Seq<char>) -> Seq<char>
    decreases s.len(),
{
    if s.len() > 0 && is_white_space(s.last()) {
        trim_end(s.drop_last())
    } else {
        s
    }
}

/// `s` without leading and trailing white space.
pub open spec fn trim(s: Seq<char>) -> Seq<char> {
    trim_end(trim_start(s))
}

/// Whether `c` is Unicode white space.
pub fn is_white_space_char(c: char) -> (r: bool)
    ensures
        r == is_white_space(c),
{
    let v = c as u32;
    (0x9 <= v && v <= 0xD) || v == 0x20 || v == 0x85 || v == 0xA0 || v == 0x1680 || (0x2000 <= v
        && v <= 0x200A) || v == 0x2028 || v == 0x2029 || v == 0x202F || v == 0x205F || v == 0x3000
}

proof fn lemma_trim_start_skip(s: Seq<char>, i: int)
    requires
        0 <= i <= s.len(),
        forall|k: int| 0 <= k < i ==> is_white_space(#[trigger] s[k]),
        i < s.len() ==> !is_white_space(s[i]),
    ensures
        trim_start(s) == s.skip(i),
    decreases i,
{
    if i == 0 {
        assert(s.skip(0) =~= s);
    } else {
        let t = s.drop_first();
        assert forall|k: int| 0 <= k < i - 1 implies is_white_space(#[trigger] t[k]) by {
            assert(t[k] == s[k + 1]);
        }
        lemma_trim_start_skip(t, i - 1);
        assert(t.skip(i - 1) =~= s.skip(i));
    }
}

proof fn lemma_trim_end_take(s: Seq<char>, j: int)
    requires
        0 <= j <= s.len(),
        forall|k: int| j <= k < s.len() ==> is_white_space(#[trigger] s[k]),
        j > 0 ==> !is_white_space(s[j - 1]),
    ensures
        trim_end(s) == s.take(j),
    decreases s.len() - j,
{
    if j == s.len() {
        assert(s.take(j) =~= s);
    } else {
        let t = s.drop_last();
        assert forall|k: int| j <= k < t.len() implies is_white_space(#[trigger] t[k]) by {
            assert(t[k] == s[k]);
        }
        lemma_trim_end_take(t, j);
        assert(t.take(j) =~= s.take(j));
    }
}

/// `s` with leading and trailing white space removed, as `str::trim` does.
pub fn trim_chars(s: &[char]) -> (r: Vec<char>)
    ensures
        r@ == trim(s@),
{
    let n = s.len();
    let mut i: usize = 0;
    while i < n && is_white_space_char(s[i])
        invariant
            n == s@.len(),
            i <= n,
            forall|k: int| 0 <= k < i ==> is_white_space(#[trigger] s@[k]),
        decreases n - i,
    {
        i = i + 1;
    }
    proof {
        lemma_trim_start_skip(s@, i as int);
    }
    let ghost t = s@.skip(i as int);
    let mut j: usize = n;
    while j > i && is_white_space_char(s[j - 1])
        invariant
            n == s@.len(),
            i <= j <= n,
            t == s@.skip(i as int),
            forall|k: int| j <= k < n ==> is_white_space(#[trigger] s@[k]),
        decreases j,
    {
        j = j - 1;
    }
    proof {
        assert forall|k: int| j - i <= k < t.len() implies is_white_space(#[trigger] t[k]) by {
            assert(t[k] == s@[k + i]);
        }
        if j > i {
            assert(t[j - i - 1] == s@[j - 1]);
        }
        lemma_trim_end_take(t, j - i);
    }
    let mut r: Vec<char> = Vec::new();
    let mut k: usize = i;
    while k < j
        invariant
            n == s@.len(),
            i <= k <= j <= n,
            r@ == s@.subrange(i as int, k as int),
        decreases j - k,
    {
        r.push(s[k]);
        assert(s@.subrange(i as int, k as int).push(s@[k as int]) =~= s@.subrange(
            i as int,
            k + 1,
        ));
        k = k + 1;
    }
    assert(r@ =~= t.take(j - i));
    r
}


/// What `trim_start` leaves is a suffix of `s` that does not begin with white space.
pub proof fn lemma_trim_start_shape(s: Seq<char>)
    ensures
        trim_start(s).len() <= s.len(),
        trim_start(s) == s.skip(s.len() - trim_start(s).len()),
        trim_start(s).len() > 0 ==> !is_white_space(trim_start(s)[0]),
        forall|k: int| 0 <= k < s.len() - trim_start(s).len() ==> is_white_space(#[trigger] s[k]),
    decreases s.len(),
{
    if s.len() > 0 && is_white_space(s[0]) {
        lemma_trim_start_shape(s.drop_first());
        let t = trim_start(s.drop_first());
        assert(s.drop_first().skip(s.drop_first().len() - t.len()) =~= s.skip(s.len() - t.len()));
        assert forall|k: int| 0 <= k < s.len() - t.len() implies is_white_space(#[trigger] s[k]) by {
            if k > 0 {
                assert(s[k] == s.drop_first()[k - 1]);
            }
        }
    } else {
        assert(s.skip(0) =~= s);
    }
}

/// What `trim_end` leaves is a prefix of `s` that does not end with white space.
pub proof fn lemma_trim_end_shape(s: Seq<char>)
    ensures
        trim_end(s).len() <= s.len(),
        trim_end(s) == s.take(trim_end(s).len() as int),
        trim_end(s).len() > 0 ==> !is_white_space(trim_end(s).last()),
        forall|k: int| trim_end(s).len() <= k < s.len() ==> is_white_space(#[trigger] s[k]),
    decreases s.len(),
{
    if s.len() > 0 && is_white_space(s.last()) {
        lemma_trim_end_shape(s.drop_last());
        let t = trim_end(s.drop_last());
        assert(s.drop_last().take(t.len() as int) =~= s.take(t.len() as int));
        assert forall|k: int| t.len() <= k < s.len() implies is_white_space(#[trigger] s[k]) by {
            if k < s.len() - 1 {
                assert(s[k] == s.drop_last()[k]);
            }
        }
    } else {
        assert(s.take(s.len() as int) =~= s);
    }
}

/// `trim(s)` is the part of `s` from index `i` (inclusive) to `j` (exclusive), for some `i <= j`.
pub proof fn lemma_trim_is_subrange(s: Seq<char>) -> (ij: (int, int))
    ensures
        0 <= ij.0 <= ij.1 <= s.len(),
        trim(s) == s.subrange(ij.0, ij.1),
{
    lemma_trim_start_shape(s);
    let u = trim_start(s);
    lemma_trim_end_shape(u);
    let i = s.len() - u.len();
    let j = i + trim_end(u).len();
    assert(u.take(trim_end(u).len() as int) =~= s.subrange(i, j));
    (i, j)
}

/// Trimming a trimmed text changes nothing.
pub proof fn lemma_trim_idempotent(s: Seq<char>)
    ensures
        trim(trim(s)) == trim(s),
{
    lemma_trim_start_shape(s);
    let u = trim_start(s);
    lemma_trim_end_shape(u);
    let v = trim_end(u);
    // v is a prefix of u, so it starts where u starts
    if v.len() > 0 {
        assert(v[0] == u[0]);
    }
    assert(trim_start(v) == v);
    assert(trim_end(v) == v);
}

/// Every character of `trim(s)` occurs in `s`.
pub proof fn lemma_trim_chars_from(s: Seq<char>, c: char)
    ensures
        trim(s).contains(c) ==> s.contains(c),
{
    let (i, j) = lemma_trim_is_subrange(s);
    if trim(s).contains(c) {
        let k = choose|k: int| 0 <= k < trim(s).len() && trim(s)[k] == c;
        assert(s[i + k] == c);
    }
}

/// The text with each line break (`'\n'` or `'\r'`) replaced by a space.
pub open spec fn single_line(s: Seq<char>) -> Seq<char> {
    s.map_values(|c: char| if c == '\n' || c == '\r' { ' ' } else { c })
}

/// How many characters of a text a summary keeps before it is cut.
pub const SUMMARY_CHARS: usize = 180;

/// The one-line summary of a text: line breaks become spaces, the result is
/// trimmed, and a result longer than `SUMMARY_CHARS` characters is cut there
/// and ended with `'…'`.
pub open spec fn summary_of(s: Seq<char>) -> Seq<char> {
    let t = trim(single_line(s));
    if t.len() <= SUMMARY_CHARS {
        t
    } else {
        t.take(SUMMARY_CHARS as int).push('\u{2026}')
    }
}

/// The one-line summary of `text` that a history list shows.
pub fn summarize_text(text: &str) -> (r: String)
    ensures
        r@ == summary_of(text@),
{
    let chars = chars_of(text);
    let n = chars.len();
    let mut line: Vec<char> = Vec::new();
    for i in 0..n
        invariant
            n == chars@.len(),
            chars@ == text@,
            line@ == single_line(chars@).take(i as int),
    {
        let c = chars[i];
        let d = if c == '\n' || c == '\r' { ' ' } else { c };
        line.push(d);
        assert(single_line(chars@).take(i as int).push(d) =~= single_line(chars@).take(i + 1));
    }
    assert(single_line(chars@).take(n as int) =~= single_line(chars@));
    let trimmed = trim_chars(&line);
    if trimmed.len() <= SUMMARY_CHARS {
        string_of(&trimmed)
    } else {
        let mut cut: Vec<char> = Vec::new();
        for i in 0..SUMMARY_CHARS
            invariant
                trimmed@.len() > SUMMARY_CHARS,
                cut@ == trimmed@.take(i as int),
        {
            cut.push(trimmed[i]);
            assert(trimmed@.take(i as int).push(trimmed@[i as int]) =~= trimmed@.take(i + 1));
        }
        cut.push('\u{2026}');
        string_of(&cut)
    }
}

/// A summary is at most one character longer than `SUMMARY_CHARS`, holds no
/// line break, and a text whose trimmed one-line form fits is shown whole.
pub proof fn lemma_summary_shape(s: Seq<char>)
    ensures
        summary_of(s).len() <= SUMMARY_CHARS + 1,
        !summary_of(s).contains('\n'),
        !summary_of(s).contains('\r'),
        trim(single_line(s)).len() <= SUMMARY_CHARS ==> summary_of(s) == trim(single_line(s)),
{
    let l = single_line(s);
    let t = trim(l);
    assert(!l.contains('\n'));
    assert(!l.contains('\r'));
    lemma_trim_chars_from(l, '\n');
    lemma_trim_chars_from(l, '\r');
    if t.len() > SUMMARY_CHARS {
        let u = t.take(SUMMARY_CHARS as int).push('\u{2026}');
        assert forall|k: int| 0 <= k < u.len() implies u[k] != '\n' && u[k] != '\r' by {
            if k < SUMMARY_CHARS {
                assert(u[k] == t[k]);
                assert(t.contains(t[k]));
            }
        }
    }
}

/// A text that neither starts nor ends with white space is its own trimmed form.
pub proof fn lemma_trim_keeps(x: Seq<char>)
    requires
        x.len() == 0 || (!is_white_space(x[0]) && !is_white_space(x.last())),
    ensures
        trim(x) == x,
{
}

/// A text without line breaks is its own one-line form.
pub proof fn lemma_single_line_keeps(x: Seq<char>)
    requires
        !x.contains('\n'),
        !x.contains('\r'),
    ensures
        single_line(x) == x,
{
    assert forall|k: int| 0 <= k < x.len() implies single_line(x)[k] == x[k] by {
        assert(x.contains(x[k]));
    }
    assert(single_line(x) =~= x);
}

/// Summarizing a summary changes nothing.
pub proof fn lemma_summary_idempotent(s: Seq<char>)
    ensures
        summary_of(summary_of(s)) == summary_of(s),
{
    let t = trim(single_line(s));
    let x = summary_of(s);
    lemma_summary_shape(s);
    lemma_single_line_keeps(x);
    lemma_trim_start_shape(single_line(s));
    let u = trim_start(single_line(s));
    lemma_trim_end_shape(u);
    if t.len() > 0 {
        assert(t[0] == u[0]);
    }
    if t.len() <= SUMMARY_CHARS {
        lemma_trim_keeps(t);
    } else {
        assert(x[0] == t[0]);
        assert(x.last() == '\u{2026}');
        lemma_trim_keeps(x);
        assert(x.take(SUMMARY_CHARS as int) =~= t.take(SUMMARY_CHARS as int));
    }
}

/// The tag list kept from `tags`: each tag trimmed, empty tags dropped, and a
/// tag equal to one kept before it dropped; the rest keep their order.
pub open spec fn dedupe_spec(tags: Seq<Seq<char>>) -> Seq<Seq<char>>
    decreases tags.len(),
{
    if tags.len() == 0 {
        Seq::empty()
    } else {
        let kept = dedupe_spec(tags.drop_last());
        let cleaned = trim(tags.last());
        if cleaned.len() == 0 || kept.contains(cleaned) {
            kept
        } else {
            kept.push(cleaned)
        }
    }
}

/// Cleans a tag list: trims each tag, drops empty ones and repeats.
pub fn dedupe_tags(tags: Vec<String>) -> (r: Vec<String>)
    ensures
        r.deep_view() == dedupe_spec(tags.deep_view()),
{
    let ghost input = tags.deep_view();
    let mut deduped: Vec<String> = Vec::new();
    let n = tags.len();
    for i in 0..n
        invariant
            n == tags@.len(),
            input == tags.deep_view(),
            deduped.deep_view() == dedupe_spec(input.take(i as int)),
    {
        let chars = chars_of(tags[i].as_str());
        let cleaned_chars = trim_chars(&chars);
        let cleaned = string_of(&cleaned_chars);
        assert(input.take(i + 1).drop_last() =~= input.take(i as int));
        assert(input[i as int] == tags@[i as int]@);
        let mut found = false;
        let m = deduped.len();
        for k in 0..m
            invariant
                m == deduped@.len(),
                found <==> exists|q: int| 0 <= q < k && deduped@[q]@ == cleaned@,
        {
            if deduped[k] == cleaned {
                found = true;
            }
        }
        proof {
            let kept = deduped.deep_view();
            if found {
                let q = choose|q: int| 0 <= q < m && deduped@[q]@ == cleaned@;
                assert(kept[q] == cleaned@);
            } else {
                assert forall|q: int| 0 <= q < kept.len() implies kept[q] != cleaned@ by {
                    assert(kept[q] == deduped@[q]@);
                }
            }
        }
        if cleaned_chars.len() > 0 && !found {
            deduped.push(cleaned);
            assert(deduped.deep_view() =~= dedupe_spec(input.take(i as int)).push(cleaned@));
        }
    }
    assert(input.take(n as int) =~= input);
    deduped
}


/// A cleaned tag list holds no tag twice, no empty tag, and only trimmed tags.
pub proof fn lemma_dedupe_clean(tags: Seq<Seq<char>>)
    ensures
        dedupe_spec(tags).no_duplicates(),
        forall|k: int|
            0 <= k < dedupe_spec(tags).len() ==> {
                &&& (#[trigger] dedupe_spec(tags)[k]).len() > 0
                &&& trim(dedupe_spec(tags)[k]) == dedupe_spec(tags)[k]
            },
    decreases tags.len(),
{
    if tags.len() > 0 {
        lemma_dedupe_clean(tags.drop_last());
        lemma_trim_idempotent(tags.last());
    }
}

/// A list with no repeats, no empty tag and only trimmed tags is kept as it is.
pub proof fn lemma_dedupe_keeps_clean(tags: Seq<Seq<char>>)
    requires
        tags.no_duplicates(),
        forall|k: int|
            0 <= k < tags.len() ==> {
                &&& (#[trigger] tags[k]).len() > 0
                &&& trim(tags[k]) == tags[k]
            },
    ensures
        dedupe_spec(tags) == tags,
    decreases tags.len(),
{
    if tags.len() > 0 {
        let init = tags.drop_last();
        assert forall|k: int| 0 <= k < init.len() implies {
            &&& (#[trigger] init[k]).len() > 0
            &&& trim(init[k]) == init[k]
        } by {
            assert(init[k] == tags[k]);
        }
        lemma_dedupe_keeps_clean(init);
        assert(tags.last() == tags[tags.len() - 1]);
        assert(!init.contains(tags.last())) by {
            if init.contains(tags.last()) {
                let q = choose|q: int| 0 <= q < init.len() && init[q] == tags.last();
                assert(tags[q] == tags[tags.len() - 1]);
            }
        }
        assert(init.push(tags.last()) =~= tags);
    }
}

/// Cleaning a tag list twice gives what cleaning it once gives.
pub proof fn lemma_dedupe_idempotent(tags: Seq<Seq<char>>)
    ensures
        dedupe_spec(dedupe_spec(tags)) == dedupe_spec(tags),
{
    lemma_dedupe_clean(tags);
    lemma_dedupe_keeps_clean(dedupe_spec(tags));
}


/// `parts` joined with `sep` between each two neighbours, as `[String]::join` does.
pub open spec fn join_spec(parts: Seq<Seq<char>>, sep: Seq<char>) -> Seq<char>
    decreases parts.len(),
{
    if parts.len() == 0 {
        Seq::empty()
    } else if parts.len() == 1 {
        parts[0]
    } else {
        join_spec(parts.drop_last(), sep) + sep + parts.last()
    }
}

/// Joins `parts` with `sep` between each two neighbours.
pub fn join_strings(parts: &Vec<String>, sep: &str) -> (r: String)
    ensures
        r@ == join_spec(parts.deep_view(), sep@),
{
    let ghost input = parts.deep_view();
    let mut r = String::new();
    let n = parts.len();
    for i in 0..n
        invariant
            n == parts@.len(),
            input == parts.deep_view(),
            r@ == join_spec(input.take(i as int), sep@),
    {
        assert(input.take(i + 1).drop_last() =~= input.take(i as int));
        assert(input[i as int] == parts@[i as int]@);
        if i > 0 {
            r.append(sep);
        } else {
            assert(r@ =~= Seq::<char>::empty());
        }
        r.append(parts[i].as_str());
        assert(input.take(i + 1).last() == input[i as int]);
        if i == 0 {
            assert(r@ =~= input.take(1)[0]);
        }
    }
    assert(input.take(n as int) =~= input);
    r
}

/// The decimal digit for `d`, which is below ten.
pub open spec fn digit_char(d: nat) -> char {
    if d == 0 {
        '0'
    } else if d == 1 {
        '1'
    } else if d == 2 {
        '2'
    } else if d == 3 {
        '3'
    } else if d == 4 {
        '4'
    } else if d == 5 {
        '5'
    } else if d == 6 {
        '6'
    } else if d == 7 {
        '7'
    } else if d == 8 {
        '8'
    } else {
        '9'
    }
}

/// The decimal form of `n`, without leading zeros, as `Display` prints an integer.
pub open spec fn decimal_spec(n: nat) -> Seq<char>
    decreases n,
{
    if n < 10 {
        seq![digit_char(n)]
    } else {
        decimal_spec(n / 10).push(digit_char(n % 10))
    }
}

fn digit(d: u64) -> (c: char)
    requires
        d < 10,
    ensures
        c == digit_char(d as nat),
{
    if d == 0 {
        '0'
    } else if d == 1 {
        '1'
    } else if d == 2 {
        '2'
    } else if d == 3 {
        '3'
    } else if d == 4 {
        '4'
    } else if d == 5 {
        '5'
    } else if d == 6 {
        '6'
    } else if d == 7 {
        '7'
    } else if d == 8 {
        '8'
    } else {
        '9'
    }
}

/// The decimal form of `n`.
pub fn decimal_string(n: u64) -> (r: String)
    ensures
        r@ == decimal_spec(n as nat),
    decreases n,
{
    if n < 10 {
        let mut r = String::new();
        push_char(&mut r, digit(n));
        assert(r@ =~= seq![digit_char(n as nat)]);
        r
    } else {
        let mut r = decimal_string(n / 10);
        push_char(&mut r, digit(n % 10));
        r
    }
}

/// The lower-case hexadecimal digit for `d`, which is below sixteen.
pub open spec fn hex_digit_char(d: nat) -> char {
    if d < 10 {
        digit_char(d)
    } else if d == 10 {
        'a'
    } else if d == 11 {
        'b'
    } else if d == 12 {
        'c'
    } else if d == 13 {
        'd'
    } else if d == 14 {
        'e'
    } else {
        'f'
    }
}

/// Each byte as two lower-case hexadecimal digits, high digit first, as `{:x}`
/// prints a digest.
pub open spec fn hex_lower_spec(bytes: Seq<u8>) -> Seq<char>
    decreases bytes.len(),
{
    if bytes.len() == 0 {
        Seq::empty()
    } else {
        hex_lower_spec(bytes.drop_last()).push(hex_digit_char(bytes.last() as nat / 16)).push(
            hex_digit_char(bytes.last() as nat % 16),
        )
    }
}

fn hex_digit(d: u8) -> (c: char)
    requires
        d < 16,
    ensures
        c == hex_digit_char(d as nat),
{
    if d < 10 {
        digit(d as u64)
    } else if d == 10 {
        'a'
    } else if d == 11 {
        'b'
    } else if d == 12 {
        'c'
    } else if d == 13 {
        'd'
    } else if d == 14 {
        'e'
    } else {
        'f'
    }
}

/// The lower-case hexadecimal form of `bytes`.
pub fn hex_lower(bytes: &[u8]) -> (r: String)
    ensures
        r@ == hex_lower_spec(bytes@),
        r@.len() == 2 * bytes@.len(),
{
    let mut r = String::new();
    let n = bytes.len();
    for i in 0..n
        invariant
            n == bytes@.len(),
            r@ == hex_lower_spec(bytes@.take(i as int)),
            r@.len() == 2 * i,
    {
        let b = bytes[i];
        push_char(&mut r, hex_digit(b / 16));
        push_char(&mut r, hex_digit(b % 16));
        assert(bytes@.take(i + 1).drop_last() =~= bytes@.take(i as int));
    }
    assert(bytes@.take(n as int) =~= bytes@);
    r
}

/// The string `a` followed by `b`.
pub fn concat(a: &str, b: &str) -> (r: String)
    ensures
        r@ == a@ + b@,
{
    let mut r = a.to_owned();
    r.append(b);
    r
}


/// Trimming keeps a piece of the text and removes only white space: `trim(s)`
/// is `s` from some index `i` to some index `j`, every character before `i` or
/// from `j` on is white space, and what is kept neither starts nor ends with
/// white space.
pub proof fn lemma_trim_bounds(s: Seq<char>) -> (ij: (int, int))
    ensures
        0 <= ij.0 <= ij.1 <= s.len(),
        trim(s) == s.subrange(ij.0, ij.1),
        forall|k: int| 0 <= k < ij.0 ==> is_white_space(#[trigger] s[k]),
        forall|k: int| ij.1 <= k < s.len() ==> is_white_space(#[trigger] s[k]),
        ij.0 < ij.1 ==> !is_white_space(s[ij.0]) && !is_white_space(s[ij.1 - 1]),
        ij.0 == ij.1 ==> forall|k: int| 0 <= k < s.len() ==> is_white_space(#[trigger] s[k]),
{
    lemma_trim_start_shape(s);
    let u = trim_start(s);
    lemma_trim_end_shape(u);
    let v = trim_end(u);
    let i = s.len() - u.len();
    let j = i + v.len();
    assert(u.take(v.len() as int) =~= s.subrange(i, j));
    assert forall|k: int| j <= k < s.len() implies is_white_space(#[trigger] s[k]) by {
        assert(s[k] == u[k - i]);
    }
    if i < j {
        assert(s[i] == u[0]);
        assert(v[0] == u[0]);
        assert(s[j - 1] == v.last());
    } else {
        assert forall|k: int| 0 <= k < s.len() implies is_white_space(#[trigger] s[k]) by {
            if k >= i {
                assert(s[k] == u[k - i]);
            }
        }
    }
    (i, j)
}

proof fn lemma_trim_start_append(s: Seq<char>, t: Seq<char>)
    ensures
        trim_start(s).len() > 0 ==> trim_start(s + t) == trim_start(s) + t,
        trim_start(s).len() == 0 ==> trim_start(s + t) == trim_start(t),
    decreases s.len(),
{
    if s.len() == 0 {
        assert(s + t =~= t);
    } else if is_white_space(s[0]) {
        assert((s + t).drop_first() =~= s.drop_first() + t);
        lemma_trim_start_append(s.drop_first(), t);
    } else {
        assert((s + t)[0] == s[0]);
    }
}

/// Trimming removes any Unicode white-space character (tab, line feed,
/// vertical tab, form feed, carriage return, space, next line, no-break space,
/// ogham space mark, the spaces U+2000 to U+200A, line and paragraph
/// separators, narrow no-break space, medium mathematical space, ideographic
/// space) added at either end of a text: the trimmed text is the same.
pub proof fn lemma_trim_drops_white_space_ends(s: Seq<char>, c: char)
    requires
        ({
            let v = c as u32;
            ||| v == 0x9 || v == 0xA || v == 0xB || v == 0xC || v == 0xD
            ||| v == 0x20 || v == 0x85 || v == 0xA0 || v == 0x1680
            ||| 0x2000 <= v <= 0x200A
            ||| v == 0x2028 || v == 0x2029 || v == 0x202F || v == 0x205F || v == 0x3000
        }),
    ensures
        trim(seq![c] + s) == trim(s),
        trim(s + seq![c]) == trim(s),
{
    assert(is_white_space(c));
    assert((seq![c] + s).drop_first() =~= s);
    assert(trim_start(seq![c] + s) == trim_start(s));
    lemma_trim_start_append(s, seq![c]);
    if trim_start(s).len() > 0 {
        let u = trim_start(s);
        assert((u + seq![c]).drop_last() =~= u);
        assert((u + seq![c]).last() == c);
    } else {
        assert(trim_start(seq![c]) == trim_start(seq![c].drop_first()));
        assert(seq![c].drop_first() =~= Seq::<char>::empty());
    }
}

/// A long text's summary is its trimmed one-line form cut to exactly
/// `SUMMARY_CHARS` characters, then `'…'`: 181 characters in all, the first
/// 180 of them those of the text.
pub proof fn lemma_long_summary_is_cut(s: Seq<char>)
    requires
        trim(single_line(s)).len() > SUMMARY_CHARS,
    ensures
        summary_of(s).len() == 181,
        summary_of(s).take(180) == trim(single_line(s)).take(180),
        summary_of(s)[180] == '\u{2026}',
        forall|k: int| 0 <= k < 180 ==> #[trigger] summary_of(s)[k] == trim(single_line(s))[k],
{
    let t = trim(single_line(s));
    assert(summary_of(s).take(180) =~= t.take(180));
}

/// The one-line form keeps the length of a text, turns each line break into a
/// space and keeps every other character.
pub proof fn lemma_single_line_shape(s: Seq<char>)
    ensures
        single_line(s).len() == s.len(),
        forall|k: int|
            0 <= k < s.len() ==> #[trigger] single_line(s)[k] == (if s[k] == '\n' || s[k] == '\r' {
                ' '
            } else {
                s[k]
            }),
{
}

/// The value of the decimal digit `c`.
pub open spec fn digit_value(c: char) -> int {
    (c as u32) - 48
}

/// The number a string of decimal digits reads as, most significant first.
pub open spec fn numeral_value(ds: Seq<char>) -> int
    decreases ds.len(),
{
    if ds.len() == 0 {
        0
    } else {
        numeral_value(ds.drop_last()) * 10 + digit_value(ds.last())
    }
}

/// The decimal form of `n` is the usual base-10 numeral: made of the digits
/// `'0'` to `'9'`, reading back as `n`, and starting with `'0'` only for zero.
pub proof fn lemma_decimal_reads_back(n: nat)
    ensures
        decimal_spec(n).len() >= 1,
        forall|k: int|
            0 <= k < decimal_spec(n).len() ==> '0' <= #[trigger] decimal_spec(n)[k] <= '9',
        numeral_value(decimal_spec(n)) == n,
        decimal_spec(n)[0] == '0' ==> n == 0,
    decreases n,
{
    if n < 10 {
        assert(numeral_value(decimal_spec(n).drop_last()) == 0) by {
            assert(decimal_spec(n).drop_last() =~= Seq::<char>::empty());
        }
    } else {
        lemma_decimal_reads_back(n / 10);
        let d = decimal_spec(n / 10);
        assert(decimal_spec(n).drop_last() =~= d);
        assert(decimal_spec(n)[0] == d[0]);
        assert forall|k: int| 0 <= k < decimal_spec(n).len() implies '0' <= #[trigger] decimal_spec(n)[k]
            <= '9' by {
            if k < d.len() {
                assert(decimal_spec(n)[k] == d[k]);
            }
        }
    }
}


/// The value of the lower-case hexadecimal digit `c`.
pub open spec fn hex_digit_value(c: char) -> int {
    if '0' <= c <= '9' {
        (c as u32) - 48
    } else {
        (c as u32) - 87
    }
}

/// The hexadecimal form of a byte string has two lower-case digits (`'0'` to
/// `'9'`, `'a'` to `'f'`) per byte, and each pair reads back, high digit
/// first, as its byte.
pub proof fn lemma_hex_reads_back(bytes: Seq<u8>)
    ensures
        hex_lower_spec(bytes).len() == 2 * bytes.len(),
        forall|k: int|
            0 <= k < hex_lower_spec(bytes).len() ==> ('0' <= #[trigger] hex_lower_spec(bytes)[k] <= '9'
                || 'a' <= hex_lower_spec(bytes)[k] <= 'f'),
        forall|k: int|
            0 <= k < bytes.len() ==> hex_digit_value(#[trigger] hex_lower_spec(bytes)[2 * k]) * 16
                + hex_digit_value(hex_lower_spec(bytes)[2 * k + 1]) == bytes[k],
    decreases bytes.len(),
{
    if bytes.len() > 0 {
        let init = bytes.drop_last();
        lemma_hex_reads_back(init);
        let h = hex_lower_spec(bytes);
        let g = hex_lower_spec(init);
        let b = bytes.last();
        assert(h == g.push(hex_digit_char(b as nat / 16)).push(hex_digit_char(b as nat % 16)));
        assert forall|k: int| 0 <= k < h.len() implies ('0' <= #[trigger] h[k] <= '9' || 'a' <= h[k] <= 'f') by {
            if k < g.len() {
                assert(h[k] == g[k]);
            }
        }
        assert forall|k: int| 0 <= k < bytes.len() implies hex_digit_value(#[trigger] h[2 * k]) * 16
            + hex_digit_value(h[2 * k + 1]) == bytes[k] by {
            if k < init.len() {
                assert(h[2 * k] == g[2 * k]);
                assert(h[2 * k + 1] == g[2 * k + 1]);
                assert(bytes[k] == init[k]);
            } else {
                assert(h[2 * k] == hex_digit_char(b as nat / 16));
                assert(h[2 * k + 1] == hex_digit_char(b as nat % 16));
                assert(bytes[k] == b);
            }
        }
    }
}

} // verus!
