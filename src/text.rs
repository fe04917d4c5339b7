//! Small text helpers: whitespace trimming, comma-separated lists, wiki titles
//! and `owner/page` wiki links.

use vstd::prelude::*;

verus! {

/// Unicode `White_Space`, the property that `char::is_whitespace` tests.
pub open spec fn is_ws(c: char) -> bool {
    let u = c as u32;
    (0x09 <= u && u <= 0x0d) || u == 0x20 || u == 0x85 || u == 0xa0 || u == 0x1680
        || (0x2000 <= u && u <= 0x200a) || u == 0x2028 || u == 0x2029 || u == 0x202f
        || u == 0x205f || u == 0x3000
}

/// `s` without its leading whitespace.
pub open spec fn trim_start(s: Seq<char>) -> Seq<char>
    decreases s.len(),
{
    if s.len() > 0 && is_ws(s[0]) {
        trim_start(s.drop_first())
    } else {
        s
    }
}

/// `s` without its trailing whitespace.
pub open spec fn trim_end(s: Seq<char>) -> Seq<char>
    decreases s.len(),
{
    if s.len() > 0 && is_ws(s.last()) {
        trim_end(s.drop_last())
    } else {
        s
    }
}

/// `s` without leading and trailing whitespace.
pub open spec fn trim(s: Seq<char>) -> Seq<char> {
    trim_end(trim_start(s))
}

pub fn is_whitespace(c: char) -> (r: bool)
    ensures
        r == is_ws(c),
{
    let u = c as u32;
    (0x09 <= u && u <= 0x0d) || u == 0x20 || u == 0x85 || u == 0xa0 || u == 0x1680
        || (0x2000 <= u && u <= 0x200a) || u == 0x2028 || u == 0x2029 || u == 0x202f
        || u == 0x205f || u == 0x3000
}

proof fn lemma_trim_start_skip(s: Seq<char>, a: int)
    requires
        0 <= a <= s.len(),
        forall|k: int| 0 <= k < a ==> is_ws(#[trigger] s[k]),
    ensures
        trim_start(s) == trim_start(s.subrange(a, s.len() as int)),
    decreases a,
{
    if a > 0 {
        let t = s.drop_first();
        assert(is_ws(s[0]));
        assert forall|k: int| 0 <= k < a - 1 implies is_ws(#[trigger] t[k]) by {
            assert(t[k] == s[k + 1]);
        }
        lemma_trim_start_skip(t, a - 1);
        assert(t.subrange(a - 1, t.len() as int) =~= s.subrange(a, s.len() as int));
    } else {
        assert(s.subrange(0, s.len() as int) =~= s);
    }
}

proof fn lemma_trim_end_skip(s: Seq<char>, b: int)
    requires
        0 <= b <= s.len(),
        forall|k: int| b <= k < s.len() ==> is_ws(#[trigger] s[k]),
    ensures
        trim_end(s) == trim_end(s.subrange(0, b)),
    decreases s.len() - b,
{
    if b < s.len() {
        let t = s.drop_last();
        assert(is_ws(s[s.len() - 1]));
        assert forall|k: int| b <= k < t.len() implies is_ws(#[trigger] t[k]) by {
            assert(t[k] == s[k]);
        }
        lemma_trim_end_skip(t, b);
        assert(t.subrange(0, b) =~= s.subrange(0, b));
    } else {
        assert(s.subrange(0, b) =~= s);
    }
}

/// Bounds `(a, b)` of the trimmed part of the characters `from..to` of `s`.
fn trim_bounds(s: &str, from: usize, to: usize) -> (r: (usize, usize))
    requires
        from <= to <= s@.len(),
    ensures
        from <= r.0 <= r.1 <= to,
        s@.subrange(r.0 as int, r.1 as int) == trim(s@.subrange(from as int, to as int)),
{
    let ghost w = s@.subrange(from as int, to as int);
    let mut a: usize = from;
    while a < to && is_whitespace(s.get_char(a))
        invariant
            from <= a <= to <= s@.len(),
            w == s@.subrange(from as int, to as int),
            forall|k: int| from <= k < a ==> is_ws(#[trigger] s@[k]),
        decreases to - a,
    {
        a = a + 1;
    }
    proof {
        assert forall|k: int| 0 <= k < a - from implies is_ws(#[trigger] w[k]) by {
            assert(w[k] == s@[k + from]);
        }
        lemma_trim_start_skip(w, a - from);
        let u = w.subrange(a - from, w.len() as int);
        assert(u =~= s@.subrange(a as int, to as int));
        if a < to {
            assert(u[0] == s@[a as int]);
        }
        assert(trim_start(u) == u);
    }
    let mut b: usize = to;
    while b > a && is_whitespace(s.get_char(b - 1))
        invariant
            from <= a <= b <= to <= s@.len(),
            forall|k: int| b <= k < to ==> is_ws(#[trigger] s@[k]),
        decreases b,
    {
        b = b - 1;
    }
    proof {
        let u = s@.subrange(a as int, to as int);
        assert forall|k: int| b - a <= k < u.len() implies is_ws(#[trigger] u[k]) by {
            assert(u[k] == s@[k + a]);
        }
        lemma_trim_end_skip(u, b - a);
        let v = u.subrange(0, b - a);
        assert(v =~= s@.subrange(a as int, b as int));
        if b > a {
            assert(v.last() == s@[b - 1]);
        }
        assert(trim_end(v) == v);
    }
    (a, b)
}


/// The pieces of `s` between the occurrences of `sep`, as `str::split` gives
/// them: one more piece than there are separators.
pub open spec fn split_on(s: Seq<char>, sep: char) -> Seq<Seq<char>>
    decreases s.len(),
{
    if s.len() == 0 {
        seq![Seq::empty()]
    } else if s.last() == sep {
        split_on(s.drop_last(), sep).push(Seq::empty())
    } else {
        let f = split_on(s.drop_last(), sep);
        f.update(f.len() - 1, f.last().push(s.last()))
    }
}

/// The trimmed pieces that are not empty, in order.
pub open spec fn nonempty_trimmed(parts: Seq<Seq<char>>) -> Seq<Seq<char>>
    decreases parts.len(),
{
    if parts.len() == 0 {
        Seq::empty()
    } else {
        let rest = nonempty_trimmed(parts.drop_last());
        if trim(parts.last()).len() > 0 {
            rest.push(trim(parts.last()))
        } else {
            rest
        }
    }
}

/// The entries of a comma-separated list: each trimmed, empty ones left out.
pub open spec fn csv_entries(raw: Seq<char>) -> Seq<Seq<char>> {
    nonempty_trimmed(split_on(raw, ','))
}

proof fn lemma_split_on_nonempty(s: Seq<char>, sep: char)
    ensures
        split_on(s, sep).len() >= 1,
    decreases s.len(),
{
    if s.len() > 0 {
        lemma_split_on_nonempty(s.drop_last(), sep);
    }
}

/// Splits `raw` at each comma, trims each entry and drops the empty ones.
pub fn parse_csv(raw: &str) -> (r: Vec<String>)
    ensures
        r@.map_values(|e: String| e@) == csv_entries(raw@),
{
    let n = raw.unicode_len();
    let mut out: Vec<String> = Vec::new();
    let mut start: usize = 0;
    let mut i: usize = 0;
    proof {
        assert(raw@.subrange(0, 0) =~= Seq::<char>::empty());
    }
    while i < n
        invariant
            n == raw@.len(),
            start <= i <= n,
            split_on(raw@.subrange(0, i as int), ',').last() == raw@.subrange(start as int, i as int),
            out@.map_values(|e: String| e@) == nonempty_trimmed(
                split_on(raw@.subrange(0, i as int), ',').drop_last(),
            ),
        decreases n - i,
    {
        let c = raw.get_char(i);
        let ghost pre = raw@.subrange(0, i as int);
        let ghost post = raw@.subrange(0, i + 1);
        proof {
            assert(post.drop_last() =~= pre);
            assert(post.last() == c);
            lemma_split_on_nonempty(pre, ',');
        }
        if c == ',' {
            let (a, b) = trim_bounds(raw, start, i);
            let piece = raw.substring_char(a, b);
            if a < b {
                out.push(piece.to_owned());
            }
            proof {
                let f = split_on(pre, ',');
                assert(split_on(post, ',') == f.push(Seq::<char>::empty()));
                assert(split_on(post, ',').drop_last() =~= f);
                assert(f.drop_last().push(f.last()) =~= f);
                assert(out@.map_values(|e: String| e@) =~= nonempty_trimmed(f));
                assert(raw@.subrange(i + 1, i + 1) =~= Seq::<char>::empty());
            }
            start = i + 1;
        } else {
            proof {
                let f = split_on(pre, ',');
                let g = split_on(post, ',');
                assert(g == f.update(f.len() - 1, f.last().push(c)));
                assert(g.drop_last() =~= f.drop_last());
                assert(g.last() =~= raw@.subrange(start as int, i + 1));
            }
        }
        i = i + 1;
    }
    let (a, b) = trim_bounds(raw, start, n);
    if a < b {
        out.push(raw.substring_char(a, b).to_owned());
    }
    proof {
        let f = split_on(raw@.subrange(0, n as int), ',');
        assert(raw@.subrange(0, n as int) =~= raw@);
        lemma_split_on_nonempty(raw@, ',');
        assert(f.drop_last().push(f.last()) =~= f);
        assert(out@.map_values(|e: String| e@) =~= nonempty_trimmed(f));
    }
    out
}


/// Position of the first `c` in `s`, or -1 where `s` holds none.
pub open spec fn index_of(s: Seq<char>, c: char) -> int
    decreases s.len(),
{
    if s.len() == 0 {
        -1
    } else if s[0] == c {
        0
    } else {
        let k = index_of(s.drop_first(), c);
        if k < 0 {
            -1
        } else {
            k + 1
        }
    }
}

proof fn lemma_index_of(s: Seq<char>, c: char, i: int)
    requires
        0 <= i <= s.len(),
        forall|j: int| 0 <= j < i ==> #[trigger] s[j] != c,
        i < s.len() ==> s[i] == c,
    ensures
        index_of(s, c) == (if i == s.len() { -1 } else { i }),
    decreases i,
{
    if i > 0 {
        let t = s.drop_first();
        assert(s[0] != c);
        assert forall|j: int| 0 <= j < i - 1 implies #[trigger] t[j] != c by {
            assert(t[j] == s[j + 1]);
        }
        if i < s.len() {
            assert(t[i - 1] == s[i]);
        }
        lemma_index_of(t, c, i - 1);
    }
}

/// The first position of `c` in `s`.
fn find_char(s: &str, c: char) -> (r: Option<usize>)
    ensures
        match r {
            Some(i) => i < s@.len() && index_of(s@, c) == i,
            None => index_of(s@, c) == -1,
        },
{
    let n = s.unicode_len();
    let mut i: usize = 0;
    while i < n
        invariant
            n == s@.len(),
            i <= n,
            forall|j: int| 0 <= j < i ==> #[trigger] s@[j] != c,
        decreases n - i,
    {
        if s.get_char(i) == c {
            proof {
                lemma_index_of(s@, c, i as int);
            }
            return Some(i);
        }
        i = i + 1;
    }
    proof {
        lemma_index_of(s@, c, n as int);
    }
    None
}

/// The first line of `s` as `str::lines` yields it: up to the first `\n`,
/// without a `\r` just before it. Empty where `s` is.
pub open spec fn first_line(s: Seq<char>) -> Seq<char> {
    let k = index_of(s, '\n');
    if k < 0 {
        s
    } else if k > 0 && s[k - 1] == '\r' {
        s.subrange(0, k - 1)
    } else {
        s.subrange(0, k)
    }
}

/// `s` without every leading repetition of `"# "`.
pub open spec fn strip_heading(s: Seq<char>) -> Seq<char>
    decreases s.len(),
{
    if s.len() >= 2 && s[0] == '#' && s[1] == ' ' {
        strip_heading(s.subrange(2, s.len() as int))
    } else {
        s
    }
}

/// The title of a wiki page: its first line, without leading `"# "` marks.
pub fn extract_title(input: &str) -> (r: &str)
    ensures
        r@ == strip_heading(first_line(input@)),
{
    let n = input.unicode_len();
    let end: usize = match find_char(input, '\n') {
        None => n,
        Some(k) => if k > 0 && input.get_char(k - 1) == '\r' {
            k - 1
        } else {
            k
        },
    };
    let ghost line = first_line(input@);
    proof {
        assert(line =~= input@.subrange(0, end as int));
    }
    let mut i: usize = 0;
    while end - i >= 2 && input.get_char(i) == '#' && input.get_char(i + 1) == ' '
        invariant
            end <= n == input@.len(),
            i <= end,
            line == input@.subrange(0, end as int),
            strip_heading(line) == strip_heading(input@.subrange(i as int, end as int)),
        decreases end - i,
    {
        proof {
            let u = input@.subrange(i as int, end as int);
            assert(u.subrange(2, u.len() as int) =~= input@.subrange(i + 2, end as int));
        }
        i = i + 2;
    }
    input.substring_char(i, end)
}

/// The two parts of a wiki link `owner/page`: split at the first `/`, each
/// trimmed; none where there is no `/` or a part is empty.
pub open spec fn wiki_url_parts(s: Seq<char>) -> Option<(Seq<char>, Seq<char>)> {
    let k = index_of(s, '/');
    if k < 0 {
        None
    } else {
        let a = trim(s.subrange(0, k));
        let b = trim(s.subrange(k + 1, s.len() as int));
        if a.len() == 0 || b.len() == 0 {
            None
        } else {
            Some((a, b))
        }
    }
}

/// Splits a wiki link `owner/page` into its two trimmed parts.
pub fn extract_details_wiki_url(url: &str) -> (r: Option<(String, String)>)
    ensures
        match (r, wiki_url_parts(url@)) {
            (Some(p), Some(q)) => p.0@ == q.0 && p.1@ == q.1,
            (None, None) => true,
            _ => false,
        },
{
    let n = url.unicode_len();
    match find_char(url, '/') {
        None => None,
        Some(k) => {
            let (a0, a1) = trim_bounds(url, 0, k);
            let (b0, b1) = trim_bounds(url, k + 1, n);
            if a0 == a1 || b0 == b1 {
                None
            } else {
                let first = url.substring_char(a0, a1).to_owned();
                let second = url.substring_char(b0, b1).to_owned();
                Some((first, second))
            }
        },
    }
}


/// Whether `a` and `b` hold the same characters.
pub fn str_eq(a: &str, b: &str) -> (r: bool)
    ensures
        r == (a@ == b@),
{
    let n = a.unicode_len();
    if n != b.unicode_len() {
        return false;
    }
    let mut i: usize = 0;
    while i < n
        invariant
            n == a@.len() == b@.len(),
            i <= n,
            forall|j: int| 0 <= j < i ==> a@[j] == b@[j],
        decreases n - i,
    {
        if a.get_char(i) != b.get_char(i) {
            return false;
        }
        i = i + 1;
    }
    proof {
        assert(a@ =~= b@);
    }
    true
}

/// Whether `s` begins with `p`.
pub open spec fn starts_with(s: Seq<char>, p: Seq<char>) -> bool {
    p.len() <= s.len() && s.subrange(0, p.len() as int) == p
}

pub fn has_prefix(s: &str, p: &str) -> (r: bool)
    ensures
        r == starts_with(s@, p@),
{
    let n = p.unicode_len();
    if n > s.unicode_len() {
        return false;
    }
    let mut i: usize = 0;
    while i < n
        invariant
            n == p@.len() <= s@.len(),
            i <= n,
            forall|j: int| 0 <= j < i ==> s@[j] == p@[j],
        decreases n - i,
    {
        if s.get_char(i) != p.get_char(i) {
            proof {
                assert(s@.subrange(0, n as int)[i as int] != p@[i as int]);
            }
            return false;
        }
        i = i + 1;
    }
    proof {
        assert(s@.subrange(0, n as int) =~= p@);
    }
    true
}

} // verus!
