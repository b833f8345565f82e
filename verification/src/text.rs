//! Text at the level of characters: decimal numerals read and written, the
//! pieces of a text between separators, the file extension of an address.

use vstd::prelude::*;
use vstd::string::*;

verus! {

/// Whether `c` is one of the ten ASCII decimal digits.
pub open spec fn is_digit(c: char) -> bool {
    '0' <= c && c <= '9'
}

/// The value of the decimal digit `c`.
pub open spec fn digit_value(c: char) -> nat
    recommends
        is_digit(c),
{
    (c as u32 - '0' as u32) as nat
}

/// Reads one decimal digit.
pub fn digit_of(c: char) -> (r: Option<u8>)
    ensures
        r is Some <==> is_digit(c),
        r matches Some(d) ==> d as nat == digit_value(c),
{
    if '0' <= c && c <= '9' {
        let d: u32 = c as u32 - '0' as u32;
        Some(d as u8)
    } else {
        None
    }
}

/// The number that a run of decimal digits denotes, most significant digit
/// first. The empty run denotes zero.
pub open spec fn decimal_value(s: Seq<char>) -> nat
    decreases s.len(),
{
    if s.len() == 0 {
        0
    } else {
        10 * decimal_value(s.drop_last()) + digit_value(s.last())
    }
}

/// Whether every character of `s` is a decimal digit.
pub open spec fn all_digits(s: Seq<char>) -> bool {
    forall|i: int| 0 <= i < s.len() ==> is_digit(#[trigger] s[i])
}

/// The digits of an ordinal's text: the text itself, without one leading `+`.
pub open spec fn numeral_body(s: Seq<char>) -> Seq<char> {
    if s.len() > 0 && s[0] == '+' {
        s.skip(1)
    } else {
        s
    }
}

/// The ordinal that a text denotes: one or more decimal digits, optionally
/// after a single `+`, whose value fits sixteen bits. Any other text denotes
/// nothing.
pub open spec fn ordinal_of(s: Seq<char>) -> Option<u16> {
    let body = numeral_body(s);
    if body.len() > 0 && all_digits(body) && decimal_value(body) <= u16::MAX {
        Some(decimal_value(body) as u16)
    } else {
        None
    }
}

/// Appending a digit multiplies the value by ten and adds the digit.
pub proof fn lemma_decimal_value_push(s: Seq<char>, c: char)
    ensures
        decimal_value(s.push(c)) == 10 * decimal_value(s) + digit_value(c),
{
    assert(s.push(c).drop_last() =~= s);
}

/// The characters of a text, in order.
pub fn chars_of(s: &str) -> (v: Vec<char>)
    ensures
        v@ == s@,
{
    let mut v: Vec<char> = Vec::new();
    for c in it: s.chars()
        invariant
            it.seq() == s@,
            v@ == s@.take(it.index() as int),
    {
        v.push(c);
    }
    v
}

/// Reads an ordinal from the characters `v[start..end]`.
pub fn parse_ordinal_in(v: &Vec<char>, start: usize, end: usize) -> (r: Option<u16>)
    requires
        start <= end <= v.len(),
    ensures
        r == ordinal_of(v@.subrange(start as int, end as int)),
{
    let ghost s = v@.subrange(start as int, end as int);
    let mut acc: u32 = 0;
    let mut overflow = false;
    let mut i: usize = start;
    if i < end && v[i] == '+' {
        i = i + 1;
    }
    let first: usize = i;
    while i < end
        invariant
            start <= first <= i <= end <= v.len(),
            s == v@.subrange(start as int, end as int),
            numeral_body(s) == v@.subrange(first as int, end as int),
            acc <= u16::MAX,
            all_digits(v@.subrange(first as int, i as int)),
            !overflow ==> acc as nat == decimal_value(v@.subrange(first as int, i as int)),
            overflow ==> decimal_value(v@.subrange(first as int, i as int)) > u16::MAX,
        decreases end - i,
    {
        let c = v[i];
        let ghost read = v@.subrange(first as int, i as int);
        proof {
            assert(v@.subrange(first as int, i + 1) =~= read.push(c));
            lemma_decimal_value_push(read, c);
        }
        match digit_of(c) {
            Some(d) => {
                if !overflow {
                    let next: u32 = acc * 10 + d as u32;
                    if next > 65535 {
                        overflow = true;
                    } else {
                        acc = next;
                    }
                }
                proof {
                    assert forall|k: int| 0 <= k < read.push(c).len() implies is_digit(
                        #[trigger] read.push(c)[k],
                    ) by {}
                }
            },
            None => {
                return None;
            },
        }
        i = i + 1;
    }
    if overflow || first == end {
        None
    } else {
        Some(acc as u16)
    }
}

/// Reads an ordinal from text.
pub fn parse_ordinal(s: &str) -> (r: Option<u16>)
    ensures
        r == ordinal_of(s@),
{
    let v = chars_of(s);
    proof {
        assert(v@.subrange(0, v@.len() as int) =~= v@);
    }
    parse_ordinal_in(&v, 0, v.len())
}

/// The pieces of `s` between occurrences of `sep`, in order. A text without
/// `sep` is its own single piece; each occurrence starts a new piece, so two
/// separators in a row enclose an empty piece.
pub open spec fn split(s: Seq<char>, sep: char) -> Seq<Seq<char>>
    decreases s.len(),
{
    if s.len() == 0 {
        seq![Seq::<char>::empty()]
    } else {
        let before = split(s.drop_last(), sep);
        if s.last() == sep {
            before.push(Seq::<char>::empty())
        } else {
            before.drop_last().push(before.last().push(s.last()))
        }
    }
}

/// The pieces joined again, with `sep` between neighbours.
pub open spec fn join(pieces: Seq<Seq<char>>, sep: char) -> Seq<char>
    decreases pieces.len(),
{
    if pieces.len() == 0 {
        Seq::<char>::empty()
    } else if pieces.len() == 1 {
        pieces[0]
    } else {
        join(pieces.drop_last(), sep).push(sep) + pieces.last()
    }
}

/// Splitting always yields at least one piece.
pub proof fn lemma_split_nonempty(s: Seq<char>, sep: char)
    ensures
        split(s, sep).len() >= 1,
    decreases s.len(),
{
    if s.len() > 0 {
        lemma_split_nonempty(s.drop_last(), sep);
    }
}

/// No piece of a split holds the separator, and joining the pieces gives the
/// text back: the split loses nothing and invents nothing.
pub proof fn law_split_join(s: Seq<char>, sep: char)
    ensures
        join(split(s, sep), sep) == s,
        forall|i: int, j: int|
            0 <= i < split(s, sep).len() && 0 <= j < split(s, sep)[i].len() ==> split(
                s,
                sep,
            )[i][j] != sep,
    decreases s.len(),
{
    let parts = split(s, sep);
    if s.len() > 0 {
        let t = s.drop_last();
        let before = split(t, sep);
        law_split_join(t, sep);
        lemma_split_nonempty(t, sep);
        if s.last() == sep {
            // One more piece, empty, after a separator.
            assert(parts.drop_last() =~= before);
        } else if before.len() > 1 {
            // The last piece has grown by one character.
            assert(parts.drop_last() =~= before.drop_last());
            assert(join(before, sep) == join(before.drop_last(), sep).push(sep)
                + before.last());
            assert(join(parts, sep) =~= (join(before.drop_last(), sep).push(sep)
                + before.last()).push(s.last()));
        }
        assert forall|i: int, j: int|
            0 <= i < parts.len() && 0 <= j < parts[i].len() implies parts[i][j] != sep by {}
    }
}

/// Whether `c` occurs in `v`.
pub fn contains_char(v: &Vec<char>, c: char) -> (r: bool)
    ensures
        r == v@.contains(c),
{
    let mut i: usize = 0;
    while i < v.len()
        invariant
            i <= v.len(),
            forall|k: int| 0 <= k < i ==> v@[k] != c,
        decreases v.len() - i,
    {
        if v[i] == c {
            return true;
        }
        i = i + 1;
    }
    false
}

/// Whether `bounds` marks the pieces of `s` split at `sep`: one pair of
/// indices per piece, each pair enclosing exactly that piece.
pub open spec fn marks_split(bounds: Seq<(usize, usize)>, s: Seq<char>, sep: char) -> bool {
    &&& bounds.len() == split(s, sep).len()
    &&& forall|i: int|
        0 <= i < bounds.len() ==> {
            &&& (#[trigger] bounds[i]).0 <= bounds[i].1 <= s.len()
            &&& s.subrange(bounds[i].0 as int, bounds[i].1 as int) == split(s, sep)[i]
        }
}

/// Finds where the pieces of `v` split at `sep` begin and end.
pub fn split_bounds(v: &Vec<char>, sep: char) -> (bounds: Vec<(usize, usize)>)
    ensures
        marks_split(bounds@, v@, sep),
{
    let mut bounds: Vec<(usize, usize)> = Vec::new();
    let mut start: usize = 0;
    let mut i: usize = 0;
    while i < v.len()
        invariant
            start <= i <= v.len(),
            split(v@.take(i as int), sep).len() == bounds.len() + 1,
            split(v@.take(i as int), sep).last() == v@.subrange(start as int, i as int),
            forall|k: int|
                0 <= k < bounds.len() ==> {
                    &&& (#[trigger] bounds[k]).0 <= bounds[k].1 <= i
                    &&& v@.subrange(bounds[k].0 as int, bounds[k].1 as int) == split(
                        v@.take(i as int),
                        sep,
                    )[k]
                },
        decreases v.len() - i,
    {
        let c = v[i];
        proof {
            assert(v@.take(i + 1).drop_last() =~= v@.take(i as int));
        }
        if c == sep {
            bounds.push((start, i));
            start = i + 1;
        }
        i = i + 1;
    }
    bounds.push((start, i));
    proof {
        assert(v@.take(v@.len() as int) =~= v@);
    }
    bounds
}

/// The decimal digit for `d`.
pub open spec fn digit_char(d: nat) -> char
    recommends
        d < 10,
{
    if d == 0 {
        '0'
    } else if d == 1 {
        '1'
    } else if d == 2 {
        '2'
    } else if d == 3 {
        '3'
    } else if d == 4 {
        '4'
    } else if d == 5 {
        '5'
    } else if d == 6 {
        '6'
    } else if d == 7 {
        '7'
    } else if d == 8 {
        '8'
    } else {
        '9'
    }
}

/// The decimal numeral of `n`: no sign, and no leading zero but for zero
/// itself.
pub open spec fn decimal_digits(n: nat) -> Seq<char>
    decreases n,
{
    if n < 10 {
        seq![digit_char(n)]
    } else {
        decimal_digits(n / 10).push(digit_char(n % 10))
    }
}

/// The numeral of a number denotes that number.
pub proof fn law_decimal_round_trip(n: nat)
    ensures
        all_digits(decimal_digits(n)),
        decimal_digits(n).len() > 0,
        decimal_value(decimal_digits(n)) == n,
    decreases n,
{
    let s = decimal_digits(n);
    if n < 10 {
        assert(decimal_value(s.drop_last()) == 0);
    } else {
        law_decimal_round_trip(n / 10);
        lemma_decimal_value_push(decimal_digits(n / 10), digit_char(n % 10));
        assert forall|i: int| 0 <= i < s.len() implies is_digit(#[trigger] s[i]) by {}
    }
}

/// The one-character text of a decimal digit.
fn digit_text(d: usize) -> (r: &'static str)
    requires
        d < 10,
    ensures
        r@ == seq![digit_char(d as nat)],
{
    proof {
        reveal_strlit("0");
        reveal_strlit("1");
        reveal_strlit("2");
        reveal_strlit("3");
        reveal_strlit("4");
        reveal_strlit("5");
        reveal_strlit("6");
        reveal_strlit("7");
        reveal_strlit("8");
        reveal_strlit("9");
    }
    let r = if d == 0 {
        "0"
    } else if d == 1 {
        "1"
    } else if d == 2 {
        "2"
    } else if d == 3 {
        "3"
    } else if d == 4 {
        "4"
    } else if d == 5 {
        "5"
    } else if d == 6 {
        "6"
    } else if d == 7 {
        "7"
    } else if d == 8 {
        "8"
    } else {
        "9"
    };
    r
}

/// Writes `n` as a decimal numeral.
pub fn decimal(n: usize) -> (r: String)
    ensures
        r@ == decimal_digits(n as nat),
    decreases n,
{
    if n < 10 {
        String::from_str(digit_text(n))
    } else {
        let mut r = decimal(n / 10);
        r.append(digit_text(n % 10));
        r
    }
}

/// The position of the last `c` in `s`; -1 where `s` holds no `c`.
pub open spec fn last_index(s: Seq<char>, c: char) -> int
    decreases s.len(),
{
    if s.len() == 0 {
        -1
    } else if s.last() == c {
        s.len() - 1
    } else {
        last_index(s.drop_last(), c)
    }
}

/// The text after the last `c` of `s`; all of `s` where it holds no `c`.
pub open spec fn after_last(s: Seq<char>, c: char) -> Seq<char> {
    s.skip(last_index(s, c) + 1)
}

/// The last `c` of `s` is a `c` with none after it, and there is none
/// exactly when `s` holds no `c`.
pub proof fn lemma_last_index(s: Seq<char>, c: char)
    ensures
        -1 <= last_index(s, c) < s.len(),
        last_index(s, c) >= 0 ==> s[last_index(s, c)] == c,
        forall|j: int| last_index(s, c) < j < s.len() ==> s[j] != c,
        last_index(s, c) == -1 <==> !s.contains(c),
    decreases s.len(),
{
    if s.len() > 0 {
        lemma_last_index(s.drop_last(), c);
        if s.last() == c {
            assert(s[s.len() - 1] == c);
        } else {
            let before = s.drop_last();
            if last_index(before, c) >= 0 {
                assert(s[last_index(before, c)] == c);
            }
            if s.contains(c) {
                let i = choose|i: int| 0 <= i < s.len() && s[i] == c;
                assert(before[i] == c);
            }
            assert forall|j: int| last_index(s, c) < j < s.len() implies s[j] != c by {
                if j < before.len() {
                    assert(before[j] == s[j]);
                }
            }
        }
    }
}

/// Finds the last `c` among the characters of `v` from position `from` on.
pub fn find_last(v: &Vec<char>, from: usize, c: char) -> (r: Option<usize>)
    requires
        from <= v.len(),
    ensures
        match r {
            Some(i) => from <= i < v.len() && last_index(v@.skip(from as int), c) == i - from,
            None => last_index(v@.skip(from as int), c) == -1,
        },
{
    let mut found: Option<usize> = None;
    let mut i: usize = from;
    while i < v.len()
        invariant
            from <= i <= v.len(),
            match found {
                Some(k) => from <= k < i && last_index(v@.subrange(from as int, i as int), c) == k
                    - from,
                None => last_index(v@.subrange(from as int, i as int), c) == -1,
            },
        decreases v.len() - i,
    {
        proof {
            assert(v@.subrange(from as int, i + 1).drop_last() =~= v@.subrange(
                from as int,
                i as int,
            ));
        }
        if v[i] == c {
            found = Some(i);
        }
        i = i + 1;
    }
    proof {
        assert(v@.subrange(from as int, v@.len() as int) =~= v@.skip(from as int));
    }
    found
}

/// The file extension of an address: what follows the last dot of its last
/// path segment, the segment being what follows the last slash. An address
/// whose last segment has no dot has the empty extension.
pub open spec fn extension(url: Seq<char>) -> Seq<char> {
    let segment = after_last(url, '/');
    if segment.contains('.') {
        after_last(segment, '.')
    } else {
        Seq::empty()
    }
}

/// The file extension of an address.
pub fn extension_of(url: &str) -> (r: String)
    ensures
        r@ == extension(url@),
{
    let v = chars_of(url);
    let len = v.len();
    let start: usize = match find_last(&v, 0, '/') {
        Some(slash) => slash + 1,
        None => 0,
    };
    proof {
        assert(v@.skip(0) =~= v@);
        lemma_last_index(v@.skip(start as int), '.');
    }
    match find_last(&v, start, '.') {
        Some(dot) => {
            proof {
                assert(v@.skip(start as int).skip(dot - start + 1) =~= url@.subrange(
                    dot + 1,
                    len as int,
                ));
            }
            String::from_str(url.substring_char(dot + 1, len))
        },
        None => String::new(),
    }
}

} // verus!
