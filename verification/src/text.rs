//! Small verified helpers on strings, seen as sequences of characters.

use vstd::prelude::*;
use vstd::string::*;

verus! {

/// `pat` occurs in `data` at position `i`.
pub open spec fn matches_at<T>(data: Seq<T>, pat: Seq<T>, i: int) -> bool {
    0 <= i && i + pat.len() <= data.len() && data.subrange(i, i + pat.len()) == pat
}

/// The first position at or after `from` where `pat` occurs in `data`.
pub open spec fn find_from<T>(data: Seq<T>, pat: Seq<T>, from: int) -> Option<int>
    decreases data.len() + 1 - from,
{
    if from < 0 || from + pat.len() > data.len() {
        None
    } else if matches_at(data, pat, from) {
        Some(from)
    } else {
        find_from(data, pat, from + 1)
    }
}

/// The first position where `pat` occurs in `data`.
pub open spec fn find_first<T>(data: Seq<T>, pat: Seq<T>) -> Option<int> {
    find_from(data, pat, 0)
}

/// `find_from` returns the least match at or after `from`, and `None` only
/// where there is no match at all from there on.
pub proof fn lemma_find_from_least<T>(data: Seq<T>, pat: Seq<T>, from: int)
    requires
        0 <= from,
    ensures
        match find_from(data, pat, from) {
            Some(i) => from <= i && matches_at(data, pat, i) && forall|j: int|
                from <= j < i ==> !matches_at(data, pat, j),
            None => forall|j: int| from <= j ==> !matches_at(data, pat, j),
        },
    decreases data.len() + 1 - from,
{
    if from + pat.len() > data.len() {
    } else if matches_at(data, pat, from) {
    } else {
        lemma_find_from_least(data, pat, from + 1);
    }
}

/// Whichever position is a match with no match before it is the one
/// `find_from` returns.
pub proof fn lemma_find_from_is<T>(data: Seq<T>, pat: Seq<T>, from: int, i: int)
    requires
        0 <= from <= i,
        matches_at(data, pat, i),
        forall|j: int| from <= j < i ==> !matches_at(data, pat, j),
    ensures
        find_from(data, pat, from) == Some(i),
    decreases i - from,
{
    if from < i {
        lemma_find_from_is(data, pat, from + 1, i);
    }
}

/// Where nothing matches from `from` on, `find_from` is `None`.
pub proof fn lemma_find_from_none<T>(data: Seq<T>, pat: Seq<T>, from: int)
    requires
        0 <= from,
        forall|j: int| from <= j ==> !matches_at(data, pat, j),
    ensures
        find_from(data, pat, from) is None,
    decreases data.len() + 1 - from,
{
    if from + pat.len() <= data.len() {
        lemma_find_from_none(data, pat, from + 1);
    }
}

/// The characters of a string, in order.
pub fn to_chars(s: &str) -> (v: Vec<char>)
    ensures
        v@ == s@,
{
    let mut v: Vec<char> = Vec::new();
    for c in it: s.chars()
        invariant
            v@ == it.seq().take(it.index() as int),
            it.seq() == s@,
    {
        v.push(c);
    }
    v
}

/// `String::push`: appends one character.
#[verifier::external_body]
pub(crate) fn push_char(s: &mut String, c: char)
    ensures
        final(s)@ == old(s)@.push(c),
{
    s.push(c)
}

/// The string made of the characters `v[from..to]`.
pub fn from_chars(v: &Vec<char>, from: usize, to: usize) -> (s: String)
    requires
        from <= to <= v@.len(),
    ensures
        s@ == v@.subrange(from as int, to as int),
{
    let mut s = String::new();
    let mut i: usize = from;
    while i < to
        invariant
            from <= i <= to <= v@.len(),
            s@ == v@.subrange(from as int, i as int),
        decreases to - i,
    {
        push_char(&mut s, v[i]);
        i += 1;
    }
    s
}

/// Whether two vectors of characters hold the same sequence.
pub fn chars_eq(a: &Vec<char>, b: &Vec<char>) -> (r: bool)
    ensures
        r == (a@ == b@),
{
    if a.len() != b.len() {
        return false;
    }
    let mut i: usize = 0;
    while i < a.len()
        invariant
            a@.len() == b@.len(),
            i <= a@.len(),
            a@.take(i as int) == b@.take(i as int),
        decreases a@.len() - i,
    {
        if a[i] != b[i] {
            return false;
        }
        assert(a@.take(i + 1) == a@.take(i as int).push(a@[i as int]));
        assert(b@.take(i + 1) == b@.take(i as int).push(b@[i as int]));
        i += 1;
    }
    assert(a@.take(a@.len() as int) == a@);
    assert(b@.take(b@.len() as int) == b@);
    true
}

/// Whether `pat` occurs in `data` at position `i`.
pub fn chars_match_at(data: &Vec<char>, pat: &Vec<char>, i: usize) -> (r: bool)
    ensures
        r == matches_at(data@, pat@, i as int),
{
    if pat.len() > data.len() || i > data.len() - pat.len() {
        return false;
    }
    let mut k: usize = 0;
    while k < pat.len()
        invariant
            i + pat@.len() <= data@.len() <= usize::MAX,
            k <= pat@.len(),
            data@.subrange(i as int, i + k) == pat@.take(k as int),
        decreases pat@.len() - k,
    {
        if data[i + k] != pat[k] {
            assert(data@.subrange(i as int, i + pat@.len())[k as int] != pat@[k as int]);
            return false;
        }
        assert(data@.subrange(i as int, i + k + 1) == data@.subrange(i as int, i + k).push(
            data@[i + k],
        ));
        assert(pat@.take(k + 1) == pat@.take(k as int).push(pat@[k as int]));
        k += 1;
    }
    assert(pat@.take(pat@.len() as int) == pat@);
    true
}

/// The first position at or after `from` where `pat` occurs in `data`.
pub fn chars_find_from(data: &Vec<char>, pat: &Vec<char>, from: usize) -> (r: Option<usize>)
    ensures
        match r {
            Some(i) => find_from(data@, pat@, from as int) == Some(i as int),
            None => find_from(data@, pat@, from as int) is None,
        },
{
    let mut i: usize = from;
    while i <= data.len() && pat.len() <= data.len() - i
        invariant
            from <= i,
            forall|j: int| from <= j < i ==> !matches_at(data@, pat@, j),
        decreases data@.len() + 1 - i,
    {
        if chars_match_at(data, pat, i) {
            proof {
                lemma_find_from_is(data@, pat@, from as int, i as int);
            }
            return Some(i);
        }
        assert(pat@.len() > 0) by {
            if pat@.len() == 0 {
                assert(data@.subrange(i as int, i as int) =~= pat@);
            }
        }
        i += 1;
    }
    proof {
        lemma_find_from_none(data@, pat@, from as int);
    }
    None
}

/// The position of the first `sep` in `s`.
pub open spec fn index_of(s: Seq<char>, sep: char) -> Option<int> {
    find_first(s, seq![sep])
}

/// The pieces of `s` between occurrences of `sep`, in order. There is always
/// at least one piece, and a piece may be empty.
pub open spec fn split_on(s: Seq<char>, sep: char) -> Seq<Seq<char>>
    decreases s.len(),
{
    match index_of(s, sep) {
        Some(i) => if 0 <= i < s.len() {
            seq![s.take(i)] + split_on(s.skip(i + 1), sep)
        } else {
            seq![s]
        },
        None => seq![s],
    }
}

/// The pieces joined again, with `sep` between neighbours.
pub open spec fn join_with(parts: Seq<Seq<char>>, sep: char) -> Seq<char>
    decreases parts.len(),
{
    if parts.len() == 0 {
        Seq::empty()
    } else if parts.len() == 1 {
        parts[0]
    } else {
        parts[0] + seq![sep] + join_with(parts.drop_first(), sep)
    }
}

/// A one-element pattern matches exactly where that element stands.
pub proof fn lemma_single_match(s: Seq<char>, sep: char, i: int)
    ensures
        matches_at(s, seq![sep], i) <==> (0 <= i < s.len() && s[i] == sep),
{
    if 0 <= i < s.len() {
        if s[i] == sep {
            assert(s.subrange(i, i + 1) =~= seq![sep]);
        } else {
            assert(s.subrange(i, i + 1)[0] == s[i]);
        }
    }
}

/// Where `sep` first stands at `i`, the split is the prefix before it followed
/// by the split of what comes after it.
pub proof fn lemma_split_step(s: Seq<char>, sep: char, i: int)
    requires
        0 <= i < s.len(),
        s[i] == sep,
        forall|j: int| 0 <= j < i ==> s[j] != sep,
    ensures
        split_on(s, sep) == seq![s.take(i)] + split_on(s.skip(i + 1), sep),
{
    assert forall|j: int| 0 <= j < i implies !matches_at(s, seq![sep], j) by {
        lemma_single_match(s, sep, j);
    }
    lemma_single_match(s, sep, i);
    lemma_find_from_is(s, seq![sep], 0, i);
}

/// Where `sep` does not occur, the split is the string itself.
pub proof fn lemma_split_last(s: Seq<char>, sep: char)
    requires
        forall|j: int| 0 <= j < s.len() ==> s[j] != sep,
    ensures
        split_on(s, sep) == seq![s],
{
    assert forall|j: int| 0 <= j implies !matches_at(s, seq![sep], j) by {
        lemma_single_match(s, sep, j);
    }
    lemma_find_from_none(s, seq![sep], 0);
}

/// Splitting and joining with the same separator gives the string back.
pub proof fn lemma_join_split(s: Seq<char>, sep: char)
    ensures
        join_with(split_on(s, sep), sep) == s,
        split_on(s, sep).len() >= 1,
    decreases s.len(),
{
    match index_of(s, sep) {
        Some(i) => {
            if 0 <= i < s.len() {
                let rest = split_on(s.skip(i + 1), sep);
                lemma_join_split(s.skip(i + 1), sep);
                let all = seq![s.take(i)] + rest;
                assert(all.len() >= 2);
                assert(all[0] == s.take(i));
                assert(all.drop_first() =~= rest);
                assert(s.take(i) + seq![sep] + s.skip(i + 1) =~= s) by {
                    lemma_find_from_least(s, seq![sep], 0);
                    lemma_single_match(s, sep, i);
                }
            }
        },
        None => {},
    }
}

/// No piece of a split holds the separator.
pub proof fn lemma_split_pieces_clean(s: Seq<char>, sep: char)
    ensures
        forall|k: int, j: int|
            0 <= k < split_on(s, sep).len() && 0 <= j < split_on(s, sep)[k].len()
                ==> split_on(s, sep)[k][j] != sep,
    decreases s.len(),
{
    lemma_find_from_least(s, seq![sep], 0);
    let parts = split_on(s, sep);
    match index_of(s, sep) {
        Some(i) => {
            if 0 <= i < s.len() {
                let rest = split_on(s.skip(i + 1), sep);
                lemma_split_pieces_clean(s.skip(i + 1), sep);
                assert forall|k: int, j: int|
                    0 <= k < parts.len() && 0 <= j < parts[k].len() implies parts[k][j]
                    != sep by {
                    if k == 0 {
                        lemma_single_match(s, sep, j);
                    } else {
                        assert(parts[k] == rest[k - 1]);
                    }
                }
            } else {
                lemma_single_match(s, sep, i);
            }
        },
        None => {
            assert forall|k: int, j: int|
                0 <= k < parts.len() && 0 <= j < parts[k].len() implies parts[k][j] != sep by {
                lemma_single_match(s, sep, j);
            }
        },
    }
}

/// Joining one more piece appends the separator and the piece.
pub proof fn lemma_join_push(parts: Seq<Seq<char>>, last: Seq<char>, sep: char)
    requires
        parts.len() >= 1,
    ensures
        join_with(parts.push(last), sep) == join_with(parts, sep) + seq![sep] + last,
    decreases parts.len(),
{
    let all = parts.push(last);
    assert(all.drop_first() =~= parts.drop_first().push(last));
    if parts.len() == 1 {
        assert(all.drop_first() =~= seq![last]);
        assert(join_with(all.drop_first(), sep) == last);
    } else {
        lemma_join_push(parts.drop_first(), last, sep);
        assert(all[0] == parts[0]);
        assert(join_with(all, sep) =~= join_with(parts, sep) + seq![sep] + last);
    }
}

/// Pieces that do not hold the separator, joined and split again, are the
/// same pieces, as long as there is at least one.
pub proof fn lemma_split_join(parts: Seq<Seq<char>>, sep: char)
    requires
        parts.len() >= 1,
        forall|k: int, j: int|
            0 <= k < parts.len() && 0 <= j < parts[k].len() ==> parts[k][j] != sep,
    ensures
        split_on(join_with(parts, sep), sep) == parts,
    decreases parts.len(),
{
    let joined = join_with(parts, sep);
    if parts.len() == 1 {
        assert forall|j: int| 0 <= j < joined.len() implies joined[j] != sep by {
            assert(parts[0][j] != sep);
        }
        lemma_split_last(joined, sep);
        assert(seq![parts[0]] =~= parts);
    } else {
        let rest = parts.drop_first();
        let i = parts[0].len() as int;
        assert forall|k: int, j: int|
            0 <= k < rest.len() && 0 <= j < rest[k].len() implies rest[k][j] != sep by {
            assert(rest[k] == parts[k + 1]);
        }
        lemma_split_join(rest, sep);
        assert(joined =~= parts[0] + seq![sep] + join_with(rest, sep));
        assert(joined[i] == sep);
        assert forall|j: int| 0 <= j < i implies joined[j] != sep by {
            assert(joined[j] == parts[0][j]);
        }
        lemma_split_step(joined, sep, i);
        assert(joined.take(i) =~= parts[0]);
        assert(joined.skip(i + 1) =~= join_with(rest, sep));
        assert(seq![parts[0]] + rest =~= parts);
    }
}

/// Joining no pieces at all gives the empty string, which splits into one
/// empty piece.
pub proof fn lemma_split_of_nothing(sep: char)
    ensures
        join_with(Seq::<Seq<char>>::empty(), sep) == Seq::<char>::empty(),
        split_on(Seq::<char>::empty(), sep) == seq![Seq::<char>::empty()],
{
    lemma_split_last(Seq::<char>::empty(), sep);
}

/// The views of a vector of strings.
pub open spec fn views(v: Seq<String>) -> Seq<Seq<char>> {
    v.map_values(|s: String| s@)
}

/// Splits `s` at every `sep`.
pub fn split_chars(s: &str, sep: char) -> (parts: Vec<String>)
    ensures
        views(parts@) == split_on(s@, sep),
        parts@.len() >= 1,
{
    let chars = to_chars(s);
    let mut parts: Vec<String> = Vec::new();
    let mut start: usize = 0;
    let mut i: usize = 0;
    proof {
        assert(chars@.skip(0) =~= chars@);
        assert(views(parts@) =~= Seq::<Seq<char>>::empty());
    }
    while i < chars.len()
        invariant
            chars@ == s@,
            start <= i <= chars@.len(),
            forall|j: int| start <= j < i ==> chars@[j] != sep,
            split_on(chars@, sep) == views(parts@) + split_on(chars@.skip(start as int), sep),
        decreases chars@.len() - i,
    {
        if chars[i] == sep {
            let piece = from_chars(&chars, start, i);
            proof {
                let rest = chars@.skip(start as int);
                lemma_split_step(rest, sep, i - start);
                assert(rest.take(i - start) =~= chars@.subrange(start as int, i as int));
                assert(rest.skip(i - start + 1) =~= chars@.skip(i + 1));
                assert(views(parts@.push(piece)) =~= views(parts@) + seq![piece@]);
            }
            parts.push(piece);
            start = i + 1;
        }
        i += 1;
    }
    let piece = from_chars(&chars, start, i);
    proof {
        let rest = chars@.skip(start as int);
        lemma_split_last(rest, sep);
        assert(rest =~= chars@.subrange(start as int, i as int));
        assert(views(parts@.push(piece)) =~= views(parts@) + seq![piece@]);
    }
    parts.push(piece);
    parts
}

/// Joins the strings with `sep` between neighbours.
pub fn join_chars(parts: &Vec<String>, sep: char) -> (s: String)
    ensures
        s@ == join_with(views(parts@), sep),
{
    let mut s = String::new();
    let mut i: usize = 0;
    proof {
        assert(views(parts@).take(0) =~= Seq::<Seq<char>>::empty());
    }
    while i < parts.len()
        invariant
            i <= parts@.len(),
            s@ == join_with(views(parts@).take(i as int), sep),
        decreases parts@.len() - i,
    {
        proof {
            let done = views(parts@).take(i as int);
            assert(views(parts@).take(i + 1) =~= done.push(parts@[i as int]@));
            if i > 0 {
                lemma_join_push(done, parts@[i as int]@, sep);
            } else {
                assert(Seq::<char>::empty() + parts@[i as int]@ =~= parts@[i as int]@);
            }
        }
        if i > 0 {
            push_char(&mut s, sep);
        }
        s.append(parts[i].as_str());
        proof {
            assert(s@ =~= join_with(views(parts@).take(i + 1), sep));
        }
        i += 1;
    }
    proof {
        assert(views(parts@).take(parts@.len() as int) =~= views(parts@));
    }
    s
}

/// The characters `v[from..to]` as a vector of their own.
pub fn sub_chars(v: &Vec<char>, from: usize, to: usize) -> (r: Vec<char>)
    requires
        from <= to <= v@.len(),
    ensures
        r@ == v@.subrange(from as int, to as int),
{
    let mut r: Vec<char> = Vec::new();
    let mut i: usize = from;
    while i < to
        invariant
            from <= i <= to <= v@.len(),
            r@ == v@.subrange(from as int, i as int),
        decreases to - i,
    {
        r.push(v[i]);
        i += 1;
    }
    r
}

/// Whether a character is white space: one of the 25 characters that
/// Unicode gives the property White_Space.
pub open spec fn is_white_space(c: char) -> bool {
    let u = c as u32;
    (0x9 <= u && u <= 0xD) || u == 0x20 || u == 0x85 || u == 0xA0 || u == 0x1680 || (0x2000 <= u
        && u <= 0x200A) || u == 0x2028 || u == 0x2029 || u == 0x202F || u == 0x205F || u
        == 0x3000
}

/// The number of white space characters that `s` begins with.
pub open spec fn leading_white(s: Seq<char>) -> int
    decreases s.len(),
{
    if s.len() > 0 && is_white_space(s[0]) {
        1 + leading_white(s.drop_first())
    } else {
        0
    }
}

/// The number of white space characters that `s` ends with.
pub open spec fn trailing_white(s: Seq<char>) -> int
    decreases s.len(),
{
    if s.len() > 0 && is_white_space(s.last()) {
        1 + trailing_white(s.drop_last())
    } else {
        0
    }
}

/// `s` without the white space at its two ends.
pub open spec fn trimmed(s: Seq<char>) -> Seq<char> {
    let rest = s.skip(leading_white(s));
    rest.take(rest.len() - trailing_white(rest))
}

/// The white space at the two ends lies within the string.
pub proof fn lemma_white_bounds(s: Seq<char>)
    ensures
        0 <= leading_white(s) <= s.len(),
        0 <= trailing_white(s) <= s.len(),
    decreases s.len(),
{
    if s.len() > 0 {
        lemma_white_bounds(s.drop_first());
        lemma_white_bounds(s.drop_last());
    }
}

/// A trimmed string neither begins nor ends with white space, and trimming
/// it again changes nothing.
pub proof fn lemma_trimmed_is_trim(s: Seq<char>)
    ensures
        trimmed(s).len() > 0 ==> !is_white_space(trimmed(s)[0]) && !is_white_space(
            trimmed(s).last(),
        ),
        trimmed(trimmed(s)) == trimmed(s),
{
    lemma_white_bounds(s);
    let rest = s.skip(leading_white(s));
    lemma_white_bounds(rest);
    lemma_leading_stops(s);
    lemma_trailing_stops(rest);
    let t = trimmed(s);
    if t.len() > 0 {
        assert(t[0] == rest[0]);
        assert(t.last() == rest[rest.len() - trailing_white(rest) - 1]);
        assert(leading_white(t) == 0);
        assert(t.skip(0) =~= t);
        assert(trailing_white(t) == 0);
        assert(t.take(t.len() as int) =~= t);
    } else {
        assert(leading_white(t) == 0);
        assert(t.skip(0) =~= t);
        assert(trailing_white(t) == 0);
        assert(t.take(t.len() as int) =~= t);
    }
}

/// After its leading white space a string does not begin with white space.
pub proof fn lemma_leading_stops(s: Seq<char>)
    ensures
        leading_white(s) < s.len() ==> !is_white_space(s[leading_white(s)]),
        forall|k: int| 0 <= k < leading_white(s) ==> is_white_space(#[trigger] s[k]),
    decreases s.len(),
{
    lemma_white_bounds(s);
    if s.len() > 0 && is_white_space(s[0]) {
        let rest = s.drop_first();
        lemma_leading_stops(rest);
        lemma_white_bounds(rest);
        if leading_white(s) < s.len() {
            assert(s[leading_white(s)] == rest[leading_white(rest)]);
        }
        assert forall|k: int| 0 <= k < leading_white(s) implies is_white_space(
            #[trigger] s[k],
        ) by {
            if k > 0 {
                assert(s[k] == rest[k - 1]);
            }
        }
    }
}

/// Before its trailing white space a string does not end with white space.
pub proof fn lemma_trailing_stops(s: Seq<char>)
    ensures
        trailing_white(s) < s.len() ==> !is_white_space(s[s.len() - trailing_white(s) - 1]),
        forall|k: int|
            s.len() - trailing_white(s) <= k < s.len() ==> is_white_space(#[trigger] s[k]),
    decreases s.len(),
{
    lemma_white_bounds(s);
    if s.len() > 0 && is_white_space(s.last()) {
        let rest = s.drop_last();
        lemma_trailing_stops(rest);
        lemma_white_bounds(rest);
        if trailing_white(s) < s.len() {
            assert(s[s.len() - trailing_white(s) - 1] == rest[rest.len() - trailing_white(rest)
                - 1]);
        }
        assert forall|k: int|
            s.len() - trailing_white(s) <= k < s.len() implies is_white_space(
            #[trigger] s[k],
        ) by {
            if k < s.len() - 1 {
                assert(s[k] == rest[k]);
            }
        }
    }
}

/// Where the first `i` characters are white space and the next one is not,
/// or there is no next one, `i` is the number of leading white space
/// characters.
proof fn lemma_leading_is(s: Seq<char>, i: int)
    requires
        0 <= i <= s.len(),
        forall|k: int| 0 <= k < i ==> is_white_space(#[trigger] s[k]),
        i < s.len() ==> !is_white_space(s[i]),
    ensures
        leading_white(s) == i,
    decreases i,
{
    if i > 0 {
        let rest = s.drop_first();
        assert forall|k: int| 0 <= k < i - 1 implies is_white_space(#[trigger] rest[k]) by {
            assert(rest[k] == s[k + 1]);
        }
        lemma_leading_is(rest, i - 1);
    }
}

/// Where the last `n` characters are white space and the one before them
/// is not, or there is none before them, `n` is the number of trailing
/// white space characters.
proof fn lemma_trailing_is(s: Seq<char>, n: int)
    requires
        0 <= n <= s.len(),
        forall|k: int| s.len() - n <= k < s.len() ==> is_white_space(#[trigger] s[k]),
        n < s.len() ==> !is_white_space(s[s.len() - n - 1]),
    ensures
        trailing_white(s) == n,
    decreases n,
{
    if n > 0 {
        let rest = s.drop_last();
        assert forall|k: int| rest.len() - (n - 1) <= k < rest.len() implies is_white_space(
            #[trigger] rest[k],
        ) by {
            assert(rest[k] == s[k]);
        }
        lemma_trailing_is(rest, n - 1);
    }
}

/// Whether a character is white space.
pub fn is_whitespace(c: char) -> (r: bool)
    ensures
        r == is_white_space(c),
{
    let u: u32 = c as u32;
    (0x9 <= u && u <= 0xD) || u == 0x20 || u == 0x85 || u == 0xA0 || u == 0x1680 || (0x2000 <= u
        && u <= 0x200A) || u == 0x2028 || u == 0x2029 || u == 0x202F || u == 0x205F || u
        == 0x3000
}

/// The string without the white space at its two ends.
pub fn trim(s: &str) -> (r: String)
    ensures
        r@ == trimmed(s@),
{
    let chars = to_chars(s);
    let mut from: usize = 0;
    while from < chars.len() && is_whitespace(chars[from])
        invariant
            from <= chars@.len(),
            forall|k: int| 0 <= k < from ==> is_white_space(#[trigger] chars@[k]),
        decreases chars@.len() - from,
    {
        from += 1;
    }
    let mut to: usize = chars.len();
    while to > from && is_whitespace(chars[to - 1])
        invariant
            from <= to <= chars@.len(),
            forall|k: int| to <= k < chars@.len() ==> is_white_space(#[trigger] chars@[k]),
        decreases to,
    {
        to -= 1;
    }
    let r = from_chars(&chars, from, to);
    proof {
        lemma_leading_is(chars@, from as int);
        let rest = chars@.skip(from as int);
        assert forall|k: int|
            rest.len() - (chars@.len() - to) <= k < rest.len() implies is_white_space(
            #[trigger] rest[k],
        ) by {
            assert(rest[k] == chars@[k + from]);
        }
        if chars@.len() - to < rest.len() {
            assert(rest[rest.len() - (chars@.len() - to) - 1] == chars@[to - 1]);
        }
        lemma_trailing_is(rest, chars@.len() - to);
        assert(r@ =~= rest.take(rest.len() - trailing_white(rest)));
    }
    r
}

} // verus!
