//! Text as sequences of characters: trimming, lines, and the few renderings that error
//! messages need.
use vstd::prelude::*;
use vstd::string::*;

verus! {

/// Whether `c` has the Unicode `White_Space` property.
pub open spec fn is_white_space(c: char) -> bool {
    let n = c as u32;
    ||| 0x09 <= n <= 0x0D
    ||| n == 0x20
    ||| n == 0x85
    ||| n == 0xA0
    ||| n == 0x1680
    ||| 0x2000 <= n <= 0x200A
    ||| n == 0x2028
    ||| n == 0x2029
    ||| n == 0x202F
    ||| n == 0x205F
    ||| n == 0x3000
}

/// `s` without its leading white space.
pub open spec fn trim_start(s: Seq<char>) -> Seq<char>
    decreases s.len(),
{
    if s.len() > 0 && is_white_space(s[0]) {
        trim_start(s.drop_first())
    } else {
        s
    }
}

/// `s` without its trailing white space.
pub open spec fn trim_end(s: Seq<char>) -> Seq<char>
    decreases s.len(),
{
    if s.len() > 0 && is_white_space(s.last()) {
        trim_end(s.drop_last())
    } else {
        s
    }
}

/// `s` without its leading and trailing white space.
pub open spec fn trimmed(s: Seq<char>) -> Seq<char> {
    trim_end(trim_start(s))
}

/// Whether trimming would leave `s` as it is.
pub open spec fn is_trimmed(s: Seq<char>) -> bool {
    s.len() > 0 ==> !is_white_space(s[0]) && !is_white_space(s.last())
}

/// Whether `s` is empty once trimmed.
pub open spec fn is_blank(s: Seq<char>) -> bool {
    trimmed(s).len() == 0
}

/// Index of the first element of `s` that equals `x`, or `s.len()` where none does.
pub open spec fn first_index_of<T>(s: Seq<T>, x: T) -> int
    decreases s.len(),
{
    if s.len() == 0 {
        0
    } else if s[0] == x {
        0
    } else {
        1 + first_index_of(s.drop_first(), x)
    }
}

/// `first_index_of` is the least index that holds `x`.
pub proof fn lemma_first_index_of<T>(s: Seq<T>, x: T)
    ensures
        0 <= first_index_of(s, x) <= s.len(),
        first_index_of(s, x) < s.len() ==> s[first_index_of(s, x)] == x,
        forall|j: int| 0 <= j < first_index_of(s, x) ==> #[trigger] s[j] != x,
    decreases s.len(),
{
    if s.len() > 0 && s[0] != x {
        let rest = s.drop_first();
        lemma_first_index_of(rest, x);
        assert forall|j: int| 0 <= j < first_index_of(s, x) implies #[trigger] s[j] != x by {
            if j > 0 {
                assert(s[j] == rest[j - 1]);
            }
        }
    }
}

/// An index that holds `x` and has no `x` before it is the first index of `x`; so is the
/// length where no element is `x`.
pub proof fn lemma_first_index_of_is<T>(s: Seq<T>, x: T, i: int)
    requires
        0 <= i <= s.len(),
        i < s.len() ==> s[i] == x,
        forall|j: int| 0 <= j < i ==> #[trigger] s[j] != x,
    ensures
        first_index_of(s, x) == i,
{
    lemma_first_index_of(s, x);
}

/// Where `x` comes to stand in a sequence that got one more element at its end.
pub proof fn lemma_first_index_of_push<T>(s: Seq<T>, last: T, x: T)
    ensures
        first_index_of(s.push(last), x) == if first_index_of(s, x) < s.len() {
            first_index_of(s, x)
        } else if last == x {
            s.len() as int
        } else {
            s.len() as int + 1
        },
{
    lemma_first_index_of(s, x);
    let i = first_index_of(s, x);
    let longer = s.push(last);
    if i < s.len() {
        assert(longer[i] == x);
        assert forall|j: int| 0 <= j < i implies #[trigger] longer[j] != x by {
            assert(longer[j] == s[j]);
        }
        lemma_first_index_of_is(longer, x, i);
    } else {
        assert forall|j: int| 0 <= j < s.len() implies #[trigger] longer[j] != x by {
            assert(longer[j] == s[j]);
        }
        if last == x {
            lemma_first_index_of_is(longer, x, s.len() as int);
        } else {
            lemma_first_index_of_is(longer, x, s.len() as int + 1);
        }
    }
}

/// Index of the first line feed in `s`, or `s.len()` where it holds none.
pub open spec fn first_line_feed(s: Seq<char>) -> int {
    first_index_of(s, '\n')
}

/// The pieces of `s` between its line feeds: one more piece than there are line feeds.
pub open spec fn split_lines(s: Seq<char>) -> Seq<Seq<char>>
    decreases s.len(),
{
    let i = first_line_feed(s);
    if 0 <= i < s.len() {
        seq![s.take(i)] + split_lines(s.skip(i + 1))
    } else {
        seq![s]
    }
}

/// The `lines` with one line feed between each two neighbours.
pub open spec fn join_lines(lines: Seq<Seq<char>>) -> Seq<char>
    decreases lines.len(),
{
    if lines.len() == 0 {
        Seq::empty()
    } else if lines.len() == 1 {
        lines[0]
    } else {
        join_lines(lines.drop_last()) + seq!['\n'] + lines.last()
    }
}

/// `s` with a space in place of each line feed.
pub open spec fn on_one_line(s: Seq<char>) -> Seq<char> {
    Seq::new(s.len(), |i: int| if s[i] == '\n' { ' ' } else { s[i] })
}

/// The decimal digit for `d`, which is below ten.
pub open spec fn digit_char(d: nat) -> char {
    ((48 + d) as u8) as char
}

/// `n` in decimal digits, without leading zeros.
pub open spec fn decimal_text(n: nat) -> Seq<char>
    decreases n,
{
    if n < 10 {
        seq![digit_char(n)]
    } else {
        decimal_text(n / 10).push(digit_char(n % 10))
    }
}

/// The text that `format!("{:#?}", s)` gives for the string `s`: `s` between double
/// quotes, with the characters that a Rust string literal must escape written as escapes.
pub uninterp spec fn debug_text(s: Seq<char>) -> Seq<char>;

/// The views of the strings of `v`, in order.
pub open spec fn views_of(v: Seq<String>) -> Seq<Seq<char>> {
    Seq::new(v.len(), |i: int| v[i]@)
}

/// The views of the string slices of `v`, in order.
pub open spec fn slice_views_of(v: Seq<&str>) -> Seq<Seq<char>> {
    Seq::new(v.len(), |i: int| v[i]@)
}

/// `==` of two string slices: whether they hold the same characters.
#[verifier::external_body]
pub(crate) fn same_text(a: &str, b: &str) -> (r: bool)
    ensures
        r == (a@ == b@),
{
    a == b
}

/// `str::trim`: the slice of `s` that is left when the white space at both ends is taken
/// away.
#[verifier::external_body]
pub(crate) fn trim(s: &str) -> (r: &str)
    ensures
        r@ == trimmed(s@),
{
    s.trim()
}

/// `str::split` on a line feed: the pieces of `s` between its line feeds, in order, an empty
/// piece where two line feeds meet or one stands at an end.
#[verifier::external_body]
pub(crate) fn lines_of(s: &str) -> (r: Vec<&str>)
    ensures
        slice_views_of(r@) == split_lines(s@),
{
    s.split('\n').collect()
}

/// `str::replace` of each line feed by one space.
#[verifier::external_body]
pub(crate) fn flatten_lines(s: &str) -> (r: String)
    ensures
        r@ == on_one_line(s@),
{
    s.replace('\n', " ")
}

/// `usize::to_string`: the number in decimal digits.
#[verifier::external_body]
pub(crate) fn decimal(n: usize) -> (r: String)
    ensures
        r@ == decimal_text(n as nat),
{
    n.to_string()
}

/// `format!` of a string with `{:#?}`: the string as a quoted, escaped literal.
#[verifier::external_body]
pub(crate) fn debug_quoted(s: &str) -> (r: String)
    ensures
        r@ == debug_text(s@),
{
    format!("{:#?}", s)
}

/// Index of the first of `items` that holds the text `x`, or their number where none does.
pub fn position_of(items: &Vec<String>, x: &str) -> (r: usize)
    ensures
        r == first_index_of(views_of(items@), x@),
{
    let mut i: usize = 0;
    while i < items.len()
        invariant
            i <= items.len(),
            forall|j: int| 0 <= j < i ==> #[trigger] views_of(items@)[j] != x@,
        decreases items.len() - i,
    {
        if same_text(items[i].as_str(), x) {
            proof {
                lemma_first_index_of_is(views_of(items@), x@, i as int);
            }
            return i;
        }
        i = i + 1;
    }
    proof {
        lemma_first_index_of_is(views_of(items@), x@, i as int);
    }
    i
}

/// Trimming takes a prefix and a suffix of white space away and nothing else.
pub proof fn lemma_trim_start_shape(s: Seq<char>)
    ensures
        trim_start(s).len() <= s.len(),
        trim_start(s) == s.skip(s.len() - trim_start(s).len()),
        trim_start(s).len() > 0 ==> !is_white_space(trim_start(s)[0]),
        forall|i: int| 0 <= i < s.len() - trim_start(s).len() ==> is_white_space(#[trigger] s[i]),
    decreases s.len(),
{
    if s.len() > 0 && is_white_space(s[0]) {
        let rest = s.drop_first();
        lemma_trim_start_shape(rest);
        let k = rest.len() - trim_start(rest).len();
        assert(rest.skip(k) == s.skip(k + 1));
        assert forall|i: int| 0 <= i < s.len() - trim_start(s).len() implies is_white_space(
            #[trigger] s[i],
        ) by {
            if i > 0 {
                assert(s[i] == rest[i - 1]);
            }
        }
    } else {
        assert(s.skip(0) == s);
    }
}

/// Trimming the end takes a suffix of white space away and nothing else.
pub proof fn lemma_trim_end_shape(s: Seq<char>)
    ensures
        trim_end(s).len() <= s.len(),
        trim_end(s) == s.take(trim_end(s).len() as int),
        trim_end(s).len() > 0 ==> !is_white_space(trim_end(s).last()),
        forall|i: int| trim_end(s).len() <= i < s.len() ==> is_white_space(#[trigger] s[i]),
    decreases s.len(),
{
    if s.len() > 0 && is_white_space(s.last()) {
        let rest = s.drop_last();
        lemma_trim_end_shape(rest);
        let k = trim_end(rest).len() as int;
        assert(rest.take(k) == s.take(k));
        assert forall|i: int| trim_end(s).len() <= i < s.len() implies is_white_space(
            #[trigger] s[i],
        ) by {
            if i < s.len() - 1 {
                assert(s[i] == rest[i]);
            }
        }
    } else {
        assert(s.take(s.len() as int) == s);
    }
}

/// A text that neither starts nor ends with white space is its own trimmed form.
pub proof fn lemma_trimmed_of_trimmed(s: Seq<char>)
    requires
        is_trimmed(s),
    ensures
        trimmed(s) == s,
{
}

/// What trimming leaves neither starts nor ends with white space, so trimming it again
/// changes nothing.
pub proof fn lemma_trimmed_is_trimmed(s: Seq<char>)
    ensures
        is_trimmed(trimmed(s)),
        trimmed(trimmed(s)) == trimmed(s),
{
    let a = trim_start(s);
    lemma_trim_start_shape(s);
    lemma_trim_end_shape(a);
    let b = trim_end(a);
    if b.len() > 0 {
        assert(b[0] == a[0]);
    }
}

/// Joining a line in front of others puts one line feed behind it.
pub proof fn lemma_join_lines_front(first: Seq<char>, rest: Seq<Seq<char>>)
    requires
        rest.len() > 0,
    ensures
        join_lines(seq![first] + rest) == first + seq!['\n'] + join_lines(rest),
    decreases rest.len(),
{
    let all = seq![first] + rest;
    assert(all.drop_last() == seq![first] + rest.drop_last());
    assert(all.last() == rest.last());
    if rest.len() == 1 {
        assert(all.drop_last() == seq![first]);
        assert(join_lines(all.drop_last()) == first);
    } else {
        lemma_join_lines_front(first, rest.drop_last());
    }
}

/// A text has at least one line, and joining its lines gives the text back.
pub proof fn lemma_join_split_lines(s: Seq<char>)
    ensures
        split_lines(s).len() > 0,
        join_lines(split_lines(s)) == s,
    decreases s.len(),
{
    let i = first_line_feed(s);
    lemma_first_index_of(s, '\n');
    if i < s.len() {
        lemma_join_split_lines(s.skip(i + 1));
        lemma_join_lines_front(s.take(i), split_lines(s.skip(i + 1)));
        assert(s.take(i) + seq!['\n'] + s.skip(i + 1) == s);
    }
}

} // verus!
