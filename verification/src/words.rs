//! Cutting a line of text into its parts: the word before the first blank,
//! what follows it, and the words between white space.
use vstd::prelude::*;
use vstd::string::StrSliceExecFns;

verus! {

/// Whether a character is white space.
pub open spec fn is_space(c: char) -> bool {
    let u = c as u32;
    ||| 0x9 <= u <= 0xd
    ||| u == 0x20
    ||| u == 0x85
    ||| u == 0xa0
    ||| u == 0x1680
    ||| 0x2000 <= u <= 0x200a
    ||| u == 0x2028
    ||| u == 0x2029
    ||| u == 0x202f
    ||| u == 0x205f
    ||| u == 0x3000
}

/// Whether a character is white space.
pub fn space(c: char) -> (white: bool)
    ensures
        white == is_space(c),
{
    let u: u32 = c as u32;
    (0x9 <= u && u <= 0xd) || u == 0x20 || u == 0x85 || u == 0xa0 || u == 0x1680 || (0x2000 <= u
        && u <= 0x200a) || u == 0x2028 || u == 0x2029 || u == 0x202f || u == 0x205f || u == 0x3000
}

/// The text before the first blank, or all of it where there is none.
pub open spec fn before_blank(s: Seq<char>) -> Seq<char>
    decreases s.len(),
{
    if s.len() == 0 || s[0] == ' ' {
        Seq::empty()
    } else {
        seq![s[0]] + before_blank(s.drop_first())
    }
}

/// The text after the first blank, or nothing where there is none.
pub open spec fn after_blank(s: Seq<char>) -> Seq<char>
    decreases s.len(),
{
    if s.len() == 0 {
        Seq::empty()
    } else if s[0] == ' ' {
        s.drop_first()
    } else {
        after_blank(s.drop_first())
    }
}

/// The text without the white space at its start.
pub open spec fn trim_start(s: Seq<char>) -> Seq<char>
    decreases s.len(),
{
    if s.len() > 0 && is_space(s[0]) {
        trim_start(s.drop_first())
    } else {
        s
    }
}

/// The text without the white space at its end.
pub open spec fn trim_end(s: Seq<char>) -> Seq<char>
    decreases s.len(),
{
    if s.len() > 0 && is_space(s.last()) {
        trim_end(s.drop_last())
    } else {
        s
    }
}

/// The text without the white space at its start and at its end.
pub open spec fn trim(s: Seq<char>) -> Seq<char> {
    trim_end(trim_start(s))
}

/// The words of a text: its longest runs of characters that are not white
/// space, in order.
///
/// Said by how the words grow with the text: white space adds nothing; a
/// character that follows white space, or stands first, starts a word; any
/// other character goes on with the last word.
pub open spec fn words_of(s: Seq<char>) -> Seq<Seq<char>>
    decreases s.len(),
{
    if s.len() == 0 {
        Seq::empty()
    } else {
        let before = words_of(s.drop_last());
        let c = s.last();
        if is_space(c) {
            before
        } else if s.len() >= 2 && !is_space(s[s.len() - 2]) && before.len() > 0 {
            before.drop_last().push(before.last().push(c))
        } else {
            before.push(seq![c])
        }
    }
}

/// No word is empty, and none holds white space.
pub proof fn lemma_words(s: Seq<char>)
    ensures
        forall|k: int|
            0 <= k < words_of(s).len() ==> (#[trigger] words_of(s)[k]).len() > 0 && forall|
                j: int,
            |
                0 <= j < words_of(s)[k].len() ==> !is_space(#[trigger] words_of(s)[k][j]),
    decreases s.len(),
{
    if s.len() > 0 {
        lemma_words(s.drop_last());
        let before = words_of(s.drop_last());
        let now = words_of(s);
        assert forall|k: int| 0 <= k < now.len() implies (#[trigger] now[k]).len() > 0 && forall|
            j: int,
        |
            0 <= j < now[k].len() ==> !is_space(#[trigger] now[k][j]) by {
            if k < before.len() - 1 || (k < before.len() && now.len() > before.len())
                || is_space(s.last()) {
                assert(now[k] == before[k]);
            } else if now.len() == before.len() {
                assert(now[k] == before.last().push(s.last()));
                assert forall|j: int| 0 <= j < now[k].len() implies !is_space(
                    #[trigger] now[k][j],
                ) by {
                    if j < before.last().len() {
                        assert(now[k][j] == before.last()[j]);
                    }
                }
            }
        }
    }
}

/// The characters of a string.
pub fn chars_of(s: &str) -> (chars: Vec<char>)
    ensures
        chars@ == s@,
{
    let mut chars: Vec<char> = Vec::new();
    for c in it: s.chars()
        invariant
            chars@ == it.seq().take(it.index() as int),
            it.seq() == s@,
    {
        proof {
            assert(it.seq().take(it.index() as int).push(c) =~= it.seq().take(it.index() + 1));
        }
        chars.push(c);
    }
    proof {
        assert(s@.take(s@.len() as int) =~= s@);
    }
    chars
}

/// Where the first blank of the text from `from` on stands, or where the
/// text ends.
pub fn find_blank(chars: &Vec<char>, from: usize) -> (at: usize)
    requires
        from <= chars@.len(),
    ensures
        from <= at <= chars@.len(),
        before_blank(chars@.skip(from as int)) == chars@.subrange(from as int, at as int),
        at < chars@.len() ==> after_blank(chars@.skip(from as int)) == chars@.skip(at + 1),
        at == chars@.len() ==> after_blank(chars@.skip(from as int)) == Seq::<char>::empty(),
{
    let ghost s = chars@.skip(from as int);
    let mut at: usize = from;
    proof {
        assert(chars@.subrange(from as int, from as int) + before_blank(s) =~= before_blank(s));
    }
    while at < chars.len() && chars[at] != ' '
        invariant
            from <= at <= chars@.len(),
            s == chars@.skip(from as int),
            before_blank(s) == chars@.subrange(from as int, at as int) + before_blank(
                chars@.skip(at as int),
            ),
            after_blank(s) == after_blank(chars@.skip(at as int)),
        decreases chars@.len() - at,
    {
        proof {
            let here = chars@.skip(at as int);
            assert(here.drop_first() =~= chars@.skip(at + 1));
            assert(chars@.subrange(from as int, at as int) + (seq![here[0]] + before_blank(
                chars@.skip(at + 1),
            )) =~= chars@.subrange(from as int, at + 1) + before_blank(chars@.skip(at + 1)));
        }
        at = at + 1;
    }
    proof {
        let here = chars@.skip(at as int);
        if at < chars@.len() {
            assert(here.drop_first() =~= chars@.skip(at + 1));
        }
        assert(chars@.subrange(from as int, at as int) + Seq::<char>::empty()
            =~= chars@.subrange(from as int, at as int));
    }
    at
}

/// The bounds of the text from `from` up to `to` without the white space at
/// its two ends.
pub fn trim_bounds(chars: &Vec<char>, from: usize, to: usize) -> (bounds: (usize, usize))
    requires
        from <= to <= chars@.len(),
    ensures
        from <= bounds.0 <= bounds.1 <= to,
        trim(chars@.subrange(from as int, to as int)) == chars@.subrange(
            bounds.0 as int,
            bounds.1 as int,
        ),
{
    let ghost s = chars@.subrange(from as int, to as int);
    let mut a: usize = from;
    while a < to && space(chars[a])
        invariant
            from <= a <= to <= chars@.len(),
            trim_start(s) == trim_start(chars@.subrange(a as int, to as int)),
        decreases to - a,
    {
        proof {
            assert(chars@.subrange(a as int, to as int).drop_first() =~= chars@.subrange(
                a + 1,
                to as int,
            ));
        }
        a = a + 1;
    }
    let ghost t = chars@.subrange(a as int, to as int);
    assert(trim_start(s) == t);
    let mut b: usize = to;
    while b > a && space(chars[b - 1])
        invariant
            a <= b <= to <= chars@.len(),
            trim_end(t) == trim_end(chars@.subrange(a as int, b as int)),
        decreases b - a,
    {
        proof {
            assert(chars@.subrange(a as int, b as int).drop_last() =~= chars@.subrange(
                a as int,
                b - 1,
            ));
        }
        b = b - 1;
    }
    (a, b)
}

/// The bounds of each word of the text from `from` up to `to`.
pub fn word_bounds(chars: &Vec<char>, from: usize, to: usize) -> (bounds: Vec<(usize, usize)>)
    requires
        from <= to <= chars@.len(),
    ensures
        bounds@.len() == words_of(chars@.subrange(from as int, to as int)).len(),
        forall|k: int|
            0 <= k < bounds@.len() ==> from <= (#[trigger] bounds@[k]).0 <= bounds@[k].1 <= to
                && chars@.subrange(bounds@[k].0 as int, bounds@[k].1 as int) == words_of(
                chars@.subrange(from as int, to as int),
            )[k],
{
    let ghost s = chars@.subrange(from as int, to as int);
    let mut bounds: Vec<(usize, usize)> = Vec::new();
    let mut i: usize = from;
    while i < to
        invariant
            from <= i <= to <= chars@.len(),
            s == chars@.subrange(from as int, to as int),
            bounds@.len() == words_of(s.take(i - from)).len(),
            forall|k: int|
                0 <= k < bounds@.len() ==> from <= (#[trigger] bounds@[k]).0 <= bounds@[k].1 <= i
                    && chars@.subrange(bounds@[k].0 as int, bounds@[k].1 as int) == words_of(
                    s.take(i - from),
                )[k],
            i > from && !is_space(chars@[i - 1]) ==> bounds@.len() > 0 && bounds@.last().1 == i,
        decreases to - i,
    {
        let c = chars[i];
        let ghost old_bounds = bounds@;
        proof {
            let now = s.take(i - from + 1);
            assert(now.drop_last() =~= s.take(i - from));
            assert(now.last() == c);
            if i > from {
                assert(now[now.len() - 2] == chars@[i - 1]);
            }
        }
        if !space(c) {
            if i > from && !space(chars[i - 1]) {
                let n = bounds.len();
                let start = bounds[n - 1].0;
                bounds.set(n - 1, (start, i + 1));
                proof {
                    assert(chars@.subrange(start as int, i + 1) =~= chars@.subrange(
                        start as int,
                        i as int,
                    ).push(c));
                    assert forall|k: int| 0 <= k < bounds@.len() implies from <= (
                    #[trigger] bounds@[k]).0 <= bounds@[k].1 <= i + 1 && chars@.subrange(
                        bounds@[k].0 as int,
                        bounds@[k].1 as int,
                    ) == words_of(s.take(i - from + 1))[k] by {
                        if k < n - 1 {
                            assert(bounds@[k] == old_bounds[k]);
                        }
                    }
                }
            } else {
                bounds.push((i, i + 1));
                proof {
                    assert(chars@.subrange(i as int, i + 1) =~= seq![c]);
                    assert forall|k: int| 0 <= k < bounds@.len() implies from <= (
                    #[trigger] bounds@[k]).0 <= bounds@[k].1 <= i + 1 && chars@.subrange(
                        bounds@[k].0 as int,
                        bounds@[k].1 as int,
                    ) == words_of(s.take(i - from + 1))[k] by {
                        if k < old_bounds.len() {
                            assert(bounds@[k] == old_bounds[k]);
                        }
                    }
                }
            }
        }
        i = i + 1;
    }
    proof {
        assert(s.take(to - from) =~= s);
    }
    bounds
}

/// The part of a string between two of its characters, as a string of its
/// own.
pub fn part(s: &str, from: usize, to: usize) -> (text: String)
    requires
        from <= to <= s@.len(),
    ensures
        text@ == s@.subrange(from as int, to as int),
{
    s.substring_char(from, to).to_owned()
}

} // verus!
