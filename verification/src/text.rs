//! Character-sequence helpers shared by the path, version and artifact code.
//!
//! Every path, version string and attribute value is reasoned about as its
//! `Seq<char>` view; the executable helpers here move between `&str`,
//! `String` and `Vec<char>` without losing that view.
use vstd::prelude::*;
use vstd::std_specs::iter::IteratorSpec;

verus! {

broadcast use vstd::string::group_string_axioms;

/// `s` split on every occurrence of `sep`, keeping empty segments: the
/// segments `str::split` yields, so `""` has one empty segment and `"a/"`
/// has two.
pub open spec fn split_on(s: Seq<char>, sep: char) -> Seq<Seq<char>>
    decreases s.len(),
{
    if s.len() == 0 {
        seq![Seq::<char>::empty()]
    } else {
        let init = split_on(s.drop_last(), sep);
        if s.last() == sep {
            init.push(Seq::<char>::empty())
        } else {
            init.update(init.len() - 1, init.last().push(s.last()))
        }
    }
}

/// `segments` joined by `sep`: the inverse of [`split_on`].
pub open spec fn join_with(segments: Seq<Seq<char>>, sep: char) -> Seq<char>
    decreases segments.len(),
{
    if segments.len() == 0 {
        Seq::<char>::empty()
    } else if segments.len() == 1 {
        segments[0]
    } else {
        join_with(segments.drop_last(), sep) + seq![sep] + segments.last()
    }
}

/// The character views of a sequence of character vectors.
pub open spec fn views(v: Seq<Vec<char>>) -> Seq<Seq<char>> {
    v.map_values(|x: Vec<char>| x@)
}

/// Whether `prefix` is an initial segment of `s`.
pub open spec fn starts_with(s: Seq<char>, prefix: Seq<char>) -> bool {
    prefix.len() <= s.len() && s.subrange(0, prefix.len() as int) == prefix
}

/// Whether `c` occurs in `s`.
pub open spec fn has_char(s: Seq<char>, c: char) -> bool {
    exists|i: int| 0 <= i < s.len() && s[i] == c
}

pub proof fn lemma_split_on_nonempty(s: Seq<char>, sep: char)
    ensures
        split_on(s, sep).len() >= 1,
    decreases s.len(),
{
    if s.len() > 0 {
        lemma_split_on_nonempty(s.drop_last(), sep);
    }
}

/// No segment of a split contains the separator.
pub proof fn lemma_split_on_segments_free(s: Seq<char>, sep: char)
    ensures
        forall|i: int|
            0 <= i < split_on(s, sep).len() ==> !has_char(#[trigger] split_on(s, sep)[i], sep),
    decreases s.len(),
{
    if s.len() > 0 {
        lemma_split_on_segments_free(s.drop_last(), sep);
        lemma_split_on_nonempty(s.drop_last(), sep);
        let init = split_on(s.drop_last(), sep);
        if s.last() != sep {
            let l = init.last();
            assert forall|k: int| 0 <= k < l.push(s.last()).len() implies l.push(s.last())[k]
                != sep by {
                if k < l.len() {
                    assert(!has_char(init[init.len() - 1], sep));
                    assert(l[k] != sep);
                }
            }
        }
    }
}

/// Joining the segments of a split gives back the original text.
pub proof fn lemma_join_split(s: Seq<char>, sep: char)
    ensures
        join_with(split_on(s, sep), sep) == s,
    decreases s.len(),
{
    if s.len() > 0 {
        let d = s.drop_last();
        lemma_join_split(d, sep);
        lemma_split_on_nonempty(d, sep);
        let init = split_on(d, sep);
        if s.last() == sep {
            assert(init.push(Seq::<char>::empty()).drop_last() =~= init);
            assert(s =~= d + seq![sep] + Seq::<char>::empty());
        } else {
            let upd = init.update(init.len() - 1, init.last().push(s.last()));
            if init.len() == 1 {
                assert(d == init[0]);
                assert(s =~= init[0].push(s.last()));
            } else {
                assert(upd.drop_last() =~= init.drop_last());
                assert(d == join_with(init.drop_last(), sep) + seq![sep] + init.last());
                assert(s =~= d.push(s.last()));
                assert(upd.last() == init.last().push(s.last()));
                assert(join_with(upd, sep) == join_with(upd.drop_last(), sep) + seq![sep]
                    + upd.last());
                assert(s =~= join_with(init.drop_last(), sep) + seq![sep] + init.last().push(
                    s.last(),
                ));
            }
        }
    }
}

/// Splitting a join of separator-free segments gives back the segments.
pub proof fn lemma_split_join(segments: Seq<Seq<char>>, sep: char)
    requires
        segments.len() >= 1,
        forall|i: int| 0 <= i < segments.len() ==> !has_char(#[trigger] segments[i], sep),
    ensures
        split_on(join_with(segments, sep), sep) == segments,
    decreases segments.len(),
{
    if segments.len() == 1 {
        lemma_split_free_segment(segments[0], sep);
        assert(seq![segments[0]] =~= segments);
    } else {
        let init = segments.drop_last();
        assert forall|i: int| 0 <= i < init.len() implies !has_char(#[trigger] init[i], sep) by {
            assert(init[i] == segments[i]);
        }
        lemma_split_join(init, sep);
        let last = segments.last();
        assert(!has_char(segments[segments.len() - 1], sep));
        lemma_split_append_free(join_with(init, sep), last, sep);
        assert(init.push(last) =~= segments);
    }
}

/// A separator-free sequence splits into itself alone.
pub proof fn lemma_split_free_segment(s: Seq<char>, sep: char)
    requires
        !has_char(s, sep),
    ensures
        split_on(s, sep) == seq![s],
    decreases s.len(),
{
    if s.len() > 0 {
        let d = s.drop_last();
        assert(!has_char(d, sep)) by {
            if has_char(d, sep) {
                let k = choose|k: int| 0 <= k < d.len() && d[k] == sep;
                assert(s[k] == sep);
            }
        }
        lemma_split_free_segment(d, sep);
        assert(s[s.len() - 1] != sep);
        assert(d.push(s.last()) =~= s);
        assert(split_on(s, sep) == split_on(d, sep).update(0, d.push(s.last())));
        assert(seq![d].update(0, d.push(s.last())) =~= seq![s]);
    } else {
        assert(s =~= Seq::<char>::empty());
    }
}

/// Splitting `prefix + [sep] + tail` where `tail` is separator-free.
pub proof fn lemma_split_append_free(prefix: Seq<char>, tail: Seq<char>, sep: char)
    requires
        !has_char(tail, sep),
    ensures
        split_on(prefix + seq![sep] + tail, sep) == split_on(prefix, sep).push(tail),
    decreases tail.len(),
{
    if tail.len() == 0 {
        let s = prefix + seq![sep] + tail;
        assert(s.drop_last() =~= prefix);
        assert(s.last() == sep);
        assert(tail =~= Seq::<char>::empty());
    } else {
        let t = tail.drop_last();
        assert(!has_char(t, sep)) by {
            if has_char(t, sep) {
                let k = choose|k: int| 0 <= k < t.len() && t[k] == sep;
                assert(tail[k] == sep);
            }
        }
        lemma_split_append_free(prefix, t, sep);
        let s = prefix + seq![sep] + tail;
        assert(s.drop_last() =~= prefix + seq![sep] + t);
        assert(tail[tail.len() - 1] != sep);
        lemma_split_on_nonempty(prefix, sep);
        assert(t.push(tail.last()) =~= tail);
        assert(s.last() == tail.last());
        let init = split_on(s.drop_last(), sep);
        assert(init == split_on(prefix, sep).push(t));
        assert(split_on(s, sep) == init.update(init.len() - 1, init.last().push(s.last())));
        assert(init.update(init.len() - 1, init.last().push(s.last()))
            =~= split_on(prefix, sep).push(tail));
    }
}

/// The characters of `s`, in order.
pub fn chars_of(s: &str) -> (v: Vec<char>)
    ensures
        v@ == s@,
{
    let mut it = s.chars();
    let mut v: Vec<char> = Vec::new();
    loop
        invariant
            v@ + IteratorSpec::remaining(&it) == s@,
            it.obeys_prophetic_iter_laws(),
            IteratorSpec::decrease(&it) is Some,
        ensures
            v@ == s@,
        decreases IteratorSpec::decrease(&it)->0,
    {
        match it.next() {
            Some(c) => {
                v.push(c);
                assert(v@ + IteratorSpec::remaining(&it) =~= s@);
            },
            None => {
                assert(v@ =~= s@);
                break ;
            },
        }
    }
    v
}

/// Appends one character to `s` (`String::push`).
#[verifier::external_body]
pub(crate) fn push_char(s: &mut String, c: char)
    ensures
        final(s)@ == old(s)@.push(c),
{
    s.push(c)
}

/// A `String` holding exactly the characters of `v`.
pub fn string_of(v: &[char]) -> (s: String)
    ensures
        s@ == v@,
{
    let mut s = String::new();
    let mut i: usize = 0;
    while i < v.len()
        invariant
            i <= v@.len(),
            s@ == v@.subrange(0, i as int),
        decreases v@.len() - i,
    {
        push_char(&mut s, v[i]);
        i = i + 1;
        assert(s@ =~= v@.subrange(0, i as int));
    }
    assert(v@.subrange(0, v@.len() as int) =~= v@);
    s
}

/// An owned copy of `s`.
pub fn owned(s: &str) -> (r: String)
    ensures
        r@ == s@,
{
    s.to_owned()
}

/// `a` followed by `b`.
pub fn concat(a: &str, b: &str) -> (r: String)
    ensures
        r@ == a@ + b@,
{
    let mut r = a.to_owned();
    r.append(b);
    r
}

/// Whether two strings hold the same characters.
pub fn str_eq(a: &str, b: &str) -> (r: bool)
    ensures
        r == (a@ == b@),
{
    a.to_owned() == b.to_owned()
}

/// Whether two character vectors are equal.
pub fn chars_eq(a: &[char], b: &[char]) -> (r: bool)
    ensures
        r == (a@ == b@),
{
    if a.len() != b.len() {
        return false;
    }
    let mut i: usize = 0;
    while i < a.len()
        invariant
            a@.len() == b@.len(),
            i <= a@.len(),
            forall|k: int| 0 <= k < i ==> a@[k] == b@[k],
        decreases a@.len() - i,
    {
        if a[i] != b[i] {
            return false;
        }
        i = i + 1;
    }
    assert(a@ =~= b@);
    true
}

/// Whether `c` occurs in `v`.
pub fn contains_char(v: &[char], c: char) -> (r: bool)
    ensures
        r == has_char(v@, c),
{
    let mut i: usize = 0;
    while i < v.len()
        invariant
            i <= v@.len(),
            forall|k: int| 0 <= k < i ==> v@[k] != c,
        decreases v@.len() - i,
    {
        if v[i] == c {
            return true;
        }
        i = i + 1;
    }
    false
}

/// Whether `prefix` is an initial segment of `v`.
pub fn chars_start_with(v: &[char], prefix: &[char]) -> (r: bool)
    ensures
        r == starts_with(v@, prefix@),
{
    if prefix.len() > v.len() {
        return false;
    }
    let mut i: usize = 0;
    while i < prefix.len()
        invariant
            prefix@.len() <= v@.len(),
            i <= prefix@.len(),
            forall|k: int| 0 <= k < i ==> v@[k] == prefix@[k],
        decreases prefix@.len() - i,
    {
        if v[i] != prefix[i] {
            assert(v@.subrange(0, prefix@.len() as int)[i as int] != prefix@[i as int]);
            return false;
        }
        i = i + 1;
    }
    assert(v@.subrange(0, prefix@.len() as int) =~= prefix@);
    true
}

/// The characters of `v` from index `start` on.
pub fn chars_from(v: &[char], start: usize) -> (r: Vec<char>)
    requires
        start <= v@.len(),
    ensures
        r@ == v@.subrange(start as int, v@.len() as int),
{
    let mut r: Vec<char> = Vec::new();
    let mut i: usize = start;
    while i < v.len()
        invariant
            start <= i <= v@.len(),
            r@ == v@.subrange(start as int, i as int),
        decreases v@.len() - i,
    {
        r.push(v[i]);
        i = i + 1;
        assert(r@ =~= v@.subrange(start as int, i as int));
    }
    r
}

/// The segments of `v` between occurrences of `sep`.
pub fn split_chars(v: &[char], sep: char) -> (r: Vec<Vec<char>>)
    ensures
        views(r@) == split_on(v@, sep),
{
    let mut done: Vec<Vec<char>> = Vec::new();
    let mut cur: Vec<char> = Vec::new();
    let mut i: usize = 0;
    while i < v.len()
        invariant
            i <= v@.len(),
            views(done@).push(cur@) == split_on(v@.subrange(0, i as int), sep),
        decreases v@.len() - i,
    {
        let c = v[i];
        let ghost before = v@.subrange(0, i as int);
        let ghost after = v@.subrange(0, i + 1);
        assert(after.drop_last() =~= before);
        proof {
            lemma_split_on_nonempty(before, sep);
        }
        if c == sep {
            let finished = cur;
            done.push(finished);
            cur = Vec::new();
            assert(views(done@).push(cur@) =~= split_on(after, sep));
        } else {
            let ghost old_done = views(done@);
            assert(after.last() == c);
            let ghost init = split_on(before, sep);
            assert(split_on(after, sep) == init.update(init.len() - 1, init.last().push(c)));
            cur.push(c);
            assert(views(done@).push(cur@) =~= split_on(after, sep));
        }
        i = i + 1;
    }
    assert(v@.subrange(0, v@.len() as int) =~= v@);
    let ghost old_done = views(done@);
    let ghost last = cur@;
    done.push(cur);
    assert(views(done@) =~= old_done.push(last));
    done
}

/// `segments` joined by `sep`.
pub fn join_chars(segments: &Vec<Vec<char>>, sep: char) -> (r: Vec<char>)
    ensures
        r@ == join_with(views(segments@), sep),
{
    let mut r: Vec<char> = Vec::new();
    let mut i: usize = 0;
    while i < segments.len()
        invariant
            i <= segments@.len(),
            r@ == join_with(views(segments@).subrange(0, i as int), sep),
        decreases segments@.len() - i,
    {
        let ghost prefix = views(segments@).subrange(0, i as int);
        let ghost next = views(segments@).subrange(0, i + 1);
        assert(next.drop_last() =~= prefix);
        if i > 0 {
            r.push(sep);
        }
        let seg = &segments[i];
        let mut k: usize = 0;
        let ghost base = r@;
        while k < seg.len()
            invariant
                k <= seg@.len(),
                r@ == base + seg@.subrange(0, k as int),
            decreases seg@.len() - k,
        {
            r.push(seg[k]);
            k = k + 1;
            assert(r@ =~= base + seg@.subrange(0, k as int));
        }
        assert(seg@.subrange(0, seg@.len() as int) =~= seg@);
        assert(next.last() == seg@);
        if i == 0 {
            assert(r@ =~= join_with(next, sep));
        } else {
            assert(r@ =~= join_with(next, sep));
        }
        i = i + 1;
    }
    assert(views(segments@).subrange(0, segments@.len() as int) =~= views(segments@));
    r
}

/// The decimal digit character for `d < 10`.
pub open spec fn digit_char(d: nat) -> char {
    if d == 0 { '0' }
    else if d == 1 { '1' }
    else if d == 2 { '2' }
    else if d == 3 { '3' }
    else if d == 4 { '4' }
    else if d == 5 { '5' }
    else if d == 6 { '6' }
    else if d == 7 { '7' }
    else if d == 8 { '8' }
    else { '9' }
}

/// The shortest decimal spelling of `n`.
pub open spec fn decimal(n: nat) -> Seq<char>
    decreases n,
{
    if n < 10 {
        seq![digit_char(n)]
    } else {
        decimal(n / 10).push(digit_char(n % 10))
    }
}

/// `n` zero-padded on the left to at least `width` digits.
pub open spec fn padded(n: nat, width: nat) -> Seq<char> {
    let d = decimal(n);
    if d.len() >= width {
        d
    } else {
        Seq::new((width - d.len()) as nat, |i: int| '0') + d
    }
}

fn digit(d: u128) -> (c: char)
    requires
        d < 10,
    ensures
        c == digit_char(d as nat),
{
    if d == 0 { '0' }
    else if d == 1 { '1' }
    else if d == 2 { '2' }
    else if d == 3 { '3' }
    else if d == 4 { '4' }
    else if d == 5 { '5' }
    else if d == 6 { '6' }
    else if d == 7 { '7' }
    else if d == 8 { '8' }
    else { '9' }
}

/// The decimal digits of `n`.
pub fn decimal_chars(n: u128) -> (r: Vec<char>)
    ensures
        r@ == decimal(n as nat),
    decreases n,
{
    if n < 10 {
        let mut r: Vec<char> = Vec::new();
        r.push(digit(n));
        assert(r@ =~= decimal(n as nat));
        r
    } else {
        let mut r = decimal_chars(n / 10);
        r.push(digit(n % 10));
        r
    }
}

/// The decimal spelling of `n`.
pub fn decimal_string(n: u128) -> (r: String)
    ensures
        r@ == decimal(n as nat),
{
    let v = decimal_chars(n);
    string_of(&v)
}

/// The decimal spelling of `n`, zero-padded to at least `width` digits.
pub fn padded_string(n: u128, width: usize) -> (r: String)
    ensures
        r@ == padded(n as nat, width as nat),
{
    let d = decimal_chars(n);
    let mut r = String::new();
    if d.len() < width {
        let pad = width - d.len();
        let mut i: usize = 0;
        while i < pad
            invariant
                i <= pad,
                r@ == Seq::new(i as nat, |k: int| '0'),
            decreases pad - i,
        {
            push_char(&mut r, '0');
            i = i + 1;
            assert(r@ =~= Seq::new(i as nat, |k: int| '0'));
        }
    }
    let tail = string_of(&d);
    r.append(tail.as_str());
    assert(r@ =~= padded(n as nat, width as nat));
    r
}

/// `i` is the position of the first `c` in `s`.
pub open spec fn is_first_index(s: Seq<char>, c: char, i: int) -> bool {
    &&& 0 <= i < s.len()
    &&& s[i] == c
    &&& forall|j: int| 0 <= j < i ==> s[j] != c
}

/// The position of the first `c` in `s`, if any.
pub open spec fn first_index(s: Seq<char>, c: char) -> Option<int> {
    if exists|i: int| is_first_index(s, c, i) {
        Some(choose|i: int| is_first_index(s, c, i))
    } else {
        None
    }
}

/// The first position of `c` in `v`.
pub fn find_char(v: &[char], c: char) -> (r: Option<usize>)
    ensures
        r matches Some(i) ==> first_index(v@, c) == Some(i as int) && is_first_index(
            v@,
            c,
            i as int,
        ),
        r is None ==> first_index(v@, c) is None && !has_char(v@, c),
{
    let mut i: usize = 0;
    while i < v.len()
        invariant
            i <= v@.len(),
            forall|k: int| 0 <= k < i ==> v@[k] != c,
        decreases v@.len() - i,
    {
        if v[i] == c {
            proof {
                assert(is_first_index(v@, c, i as int));
                let j = choose|j: int| is_first_index(v@, c, j);
                assert(j == i as int) by {
                    if j < i as int {
                        assert(v@[j] != c);
                    }
                    if j > i as int {
                        assert(v@[i as int] != c);
                    }
                }
            }
            return Some(i);
        }
        i = i + 1;
    }
    assert(!exists|j: int| is_first_index(v@, c, j));
    None
}

/// The characters of `v` in `[start, end)`.
pub fn chars_between(v: &[char], start: usize, end: usize) -> (r: Vec<char>)
    requires
        start <= end <= v@.len(),
    ensures
        r@ == v@.subrange(start as int, end as int),
{
    let mut r: Vec<char> = Vec::new();
    let mut i: usize = start;
    while i < end
        invariant
            start <= i <= end,
            end <= v@.len(),
            r@ == v@.subrange(start as int, i as int),
        decreases end - i,
    {
        r.push(v[i]);
        i = i + 1;
        assert(r@ =~= v@.subrange(start as int, i as int));
    }
    r
}

/// `a` + `b` + `c` as a `String`.
pub fn cat3(a: &str, b: &[char], c: &str) -> (r: String)
    ensures
        r@ == a@ + b@ + c@,
{
    let mut r = owned(a);
    let m = string_of(b);
    r.append(m.as_str());
    r.append(c);
    r
}

/// `a` + `b` + `c` + `d` + `e` as a `String`.
pub fn cat5(a: &str, b: &[char], c: &str, d: &[char], e: &str) -> (r: String)
    ensures
        r@ == a@ + b@ + c@ + d@ + e@,
{
    let mut r = cat3(a, b, c);
    let m = string_of(d);
    r.append(m.as_str());
    r.append(e);
    r
}

/// UTF-8 encoding distributes over concatenation.
pub proof fn lemma_encode_utf8_concat(a: Seq<char>, b: Seq<char>)
    ensures
        vstd::utf8::encode_utf8(a + b) == vstd::utf8::encode_utf8(a) + vstd::utf8::encode_utf8(b),
    decreases a.len(),
{
    if a.len() == 0 {
        assert(a + b =~= b);
        assert(vstd::utf8::encode_utf8(a) =~= Seq::<u8>::empty());
        assert(vstd::utf8::encode_utf8(a + b) =~= Seq::<u8>::empty() + vstd::utf8::encode_utf8(b));
    } else {
        assert((a + b).drop_first() =~= a.drop_first() + b);
        lemma_encode_utf8_concat(a.drop_first(), b);
        assert((a + b)[0] == a[0]);
        assert(vstd::utf8::encode_utf8(a + b) =~= vstd::utf8::encode_utf8(a) + vstd::utf8::encode_utf8(b));
    }
}

} // verus!
