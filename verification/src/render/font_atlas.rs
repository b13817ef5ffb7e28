use std::collections::HashMap;

use image::{DynamicImage, GenericImageView};
use vstd::prelude::*;

verus! {

broadcast use vstd::std_specs::hash::group_hash_axioms;

#[verifier::external_type_specification]
#[verifier::external_body]
pub struct ExDynamicImage(DynamicImage);

/// The width and height in pixels that `GenericImageView::dimensions` gives for
/// `img`.
pub uninterp spec fn image_size(img: DynamicImage) -> (u32, u32);

/// Calls `GenericImageView::dimensions` on the image. Trusted: the width and
/// height it returns are those that `image_size` names for the image, which
/// they depend on alone.
#[verifier::external_body]
fn image_dimensions(img: &DynamicImage) -> (r: (u32, u32))
    ensures
        r == image_size(*img),
{
    img.dimensions()
}

// ---------------------------------------------------------------------------
// The text format of a glyph atlas description.
// ---------------------------------------------------------------------------

/// Whether `c` has the Unicode `White_Space` property, as `char::is_whitespace`
/// tests it.
pub open spec fn is_white(c: char) -> bool {
    let u = c as u32;
    ||| u == 0x20
    ||| 0x09 <= u <= 0x0D
    ||| u == 0x85
    ||| u == 0xA0
    ||| u == 0x1680
    ||| 0x2000 <= u <= 0x200A
    ||| u == 0x2028
    ||| u == 0x2029
    ||| u == 0x202F
    ||| u == 0x205F
    ||| u == 0x3000
}

/// `s` without its leading white space.
pub open spec fn trim_start(s: Seq<char>) -> Seq<char>
    decreases s.len(),
{
    if s.len() > 0 && is_white(s[0]) {
        trim_start(s.drop_first())
    } else {
        s
    }
}

/// `s` without its trailing white space.
pub open spec fn trim_end(s: Seq<char>) -> Seq<char>
    decreases s.len(),
{
    if s.len() > 0 && is_white(s.last()) {
        trim_end(s.drop_last())
    } else {
        s
    }
}

/// `s` without its leading and trailing white space.
pub open spec fn trim(s: Seq<char>) -> Seq<char> {
    trim_end(trim_start(s))
}

/// Index of the first `c` in `s` at or after `i`, or the length of `s`.
pub open spec fn index_of(s: Seq<char>, c: char, i: int) -> int
    decreases s.len() - i,
{
    if i < 0 || i >= s.len() {
        s.len() as int
    } else if s[i] == c {
        i
    } else {
        index_of(s, c, i + 1)
    }
}

/// `l` without one trailing carriage return.
pub open spec fn strip_cr(l: Seq<char>) -> Seq<char> {
    if l.len() > 0 && l.last() == '\r' {
        l.drop_last()
    } else {
        l
    }
}

/// The lines of `s` from index `i` on, as `str::lines` splits them: at each
/// `\n`, dropping a `\r` right before it; a final line ending adds no empty line.
pub open spec fn lines_from(s: Seq<char>, i: int) -> Seq<Seq<char>>
    decreases s.len() - i,
{
    if i < 0 || i >= s.len() {
        Seq::empty()
    } else {
        let k = index_of(s, '\n', i);
        if k >= s.len() {
            seq![s.subrange(i, s.len() as int)]
        } else {
            proof {
                lemma_index_of_bounds(s, '\n', i);
            }
            seq![strip_cr(s.subrange(i, k))] + lines_from(s, k + 1)
        }
    }
}

/// The lines of `s`.
pub open spec fn lines(s: Seq<char>) -> Seq<Seq<char>> {
    lines_from(s, 0)
}

/// Whether a line starts with a space or a tab.
pub open spec fn indented(l: Seq<char>) -> bool {
    l.len() > 0 && (l[0] == ' ' || l[0] == '\t')
}

/// Whether a line, once its leading white space is dropped, starts with
/// `chars count=`.
pub open spec fn is_header(l: Seq<char>) -> bool {
    starts_with_header(trim_start(l))
}

/// Whether `t` starts with `header_prefix()`.
pub open spec fn starts_with_header(t: Seq<char>) -> bool {
    header_prefix().len() <= t.len() && t.take(header_prefix().len() as int) == header_prefix()
}

/// The text that opens the header line.
pub open spec fn header_prefix() -> Seq<char> {
    seq!['c', 'h', 'a', 'r', 's', ' ', 'c', 'o', 'u', 'n', 't', '=']
}

/// Whether `c` is an ASCII decimal digit.
pub open spec fn is_digit(c: char) -> bool {
    0x30 <= (c as u32) <= 0x39
}

/// The number that the decimal digits `d` write.
pub open spec fn digits_value(d: Seq<char>) -> nat
    decreases d.len(),
{
    if d.len() == 0 {
        0
    } else {
        digits_value(d.drop_last()) * 10 + ((d.last() as u32) - 0x30) as nat
    }
}

/// Whether every character of `d` is an ASCII decimal digit.
pub open spec fn all_digits(d: Seq<char>) -> bool {
    forall|i: int| 0 <= i < d.len() ==> is_digit(#[trigger] d[i])
}

/// The value of the non-empty decimal digits `d`, when it fits in `u32`.
pub open spec fn parse_digits(d: Seq<char>) -> Option<u32> {
    if d.len() > 0 && all_digits(d) && digits_value(d) <= u32::MAX {
        Some(digits_value(d) as u32)
    } else {
        None
    }
}

/// What `str::parse::<u32>` gives for `t`: an optional `+`, then at least one
/// decimal digit and nothing else, with a value that fits in `u32`.
pub open spec fn parse_u32(t: Seq<char>) -> Option<u32> {
    if t.len() == 0 {
        None
    } else if t[0] == '+' {
        parse_digits(t.drop_first())
    } else {
        parse_digits(t)
    }
}

/// The number of `c` in `s`.
pub open spec fn count_of(s: Seq<char>, c: char) -> nat
    decreases s.len(),
{
    if s.len() == 0 {
        0
    } else {
        count_of(s.drop_last(), c) + if s.last() == c {
            1nat
        } else {
            0nat
        }
    }
}

/// The position after a property line `t` (already trimmed) of a glyph whose
/// position was `xy`: an `xy:` line with exactly two comma-separated fields
/// sets both coordinates, each field that is no number counting as `0`; any
/// other line changes nothing.
pub open spec fn apply_property(t: Seq<char>, xy: (u32, u32)) -> (u32, u32) {
    if t.len() >= 3 && t[0] == 'x' && t[1] == 'y' && t[2] == ':' {
        let v = t.skip(3);
        if count_of(v, ',') == 1 {
            let c = index_of(v, ',', 0);
            (
                match parse_u32(trim(v.take(c))) {
                    Some(n) => n,
                    None => 0,
                },
                match parse_u32(trim(v.skip(c + 1))) {
                    Some(n) => n,
                    None => 0,
                },
            )
        } else {
            xy
        }
    } else {
        xy
    }
}

/// `acc` with the glyph being read, if any, recorded.
pub open spec fn flush(acc: Map<u32, (u32, u32)>, pending: Option<(char, (u32, u32))>) -> Map<
    u32,
    (u32, u32),
> {
    match pending {
        Some((ch, xy)) => acc.insert(ch as u32, xy),
        None => acc,
    }
}

/// Reads glyph entries from line `k` on. An entry is a line that is neither
/// empty nor indented, whose first character names the glyph, followed by its
/// indented property lines; other lines are skipped. `pending` is the entry
/// being read and `acc` the glyph positions recorded so far, by character code.
pub open spec fn glyph_entries(
    ls: Seq<Seq<char>>,
    k: int,
    pending: Option<(char, (u32, u32))>,
    acc: Map<u32, (u32, u32)>,
) -> Map<u32, (u32, u32)>
    decreases ls.len() - k,
{
    if k < 0 || k >= ls.len() {
        flush(acc, pending)
    } else {
        let line = ls[k];
        match pending {
            Some((ch, xy)) if indented(line) => glyph_entries(
                ls,
                k + 1,
                Some((ch, apply_property(trim(line), xy))),
                acc,
            ),
            _ => {
                let acc1 = flush(acc, pending);
                if line.len() == 0 || indented(line) {
                    glyph_entries(ls, k + 1, None, acc1)
                } else {
                    glyph_entries(ls, k + 1, Some((line[0], (0u32, 0u32))), acc1)
                }
            },
        }
    }
}

/// Index of the first header line at or after `i`, or the number of lines.
pub open spec fn header_index(ls: Seq<Seq<char>>, i: int) -> int
    decreases ls.len() - i,
{
    if i < 0 || i >= ls.len() {
        ls.len() as int
    } else if is_header(ls[i]) {
        i
    } else {
        header_index(ls, i + 1)
    }
}

/// The pixel position of each glyph of an atlas description, by character
/// code: the entries that follow the first `chars count=` line.
pub open spec fn parse_atlas(s: Seq<char>) -> Map<u32, (u32, u32)> {
    let ls = lines(s);
    glyph_entries(ls, header_index(ls, 0) + 1, None, Map::empty())
}

pub proof fn lemma_index_of_bounds(s: Seq<char>, c: char, i: int)
    requires
        0 <= i <= s.len(),
    ensures
        i <= index_of(s, c, i) <= s.len(),
        index_of(s, c, i) < s.len() ==> s[index_of(s, c, i)] == c,
        forall|j: int| i <= j < index_of(s, c, i) ==> s[j] != c,
    decreases s.len() - i,
{
    if i < s.len() && s[i] != c {
        lemma_index_of_bounds(s, c, i + 1);
    }
}

proof fn lemma_index_of_found(s: Seq<char>, c: char, i: int, k: int)
    requires
        0 <= i <= k <= s.len(),
        forall|j: int| i <= j < k ==> s[j] != c,
        k < s.len() ==> s[k] == c,
    ensures
        index_of(s, c, i) == k,
    decreases k - i,
{
    if i < k {
        lemma_index_of_found(s, c, i + 1, k);
    }
}

proof fn lemma_trim_start_at(s: Seq<char>, a: int)
    requires
        0 <= a <= s.len(),
        forall|j: int| 0 <= j < a ==> is_white(#[trigger] s[j]),
        a < s.len() ==> !is_white(s[a]),
    ensures
        trim_start(s) == s.skip(a),
    decreases a,
{
    if a == 0 {
        assert(s.skip(0) =~= s);
    } else {
        let t = s.drop_first();
        assert forall|j: int| 0 <= j < a - 1 implies is_white(#[trigger] t[j]) by {
            assert(t[j] == s[j + 1]);
        }
        lemma_trim_start_at(t, a - 1);
        assert(t.skip(a - 1) =~= s.skip(a));
    }
}

proof fn lemma_trim_end_at(s: Seq<char>, b: int)
    requires
        0 <= b <= s.len(),
        forall|j: int| b <= j < s.len() ==> is_white(#[trigger] s[j]),
        b > 0 ==> !is_white(s[b - 1]),
    ensures
        trim_end(s) == s.take(b),
    decreases s.len() - b,
{
    if b == s.len() {
        assert(s.take(b) =~= s);
    } else {
        let t = s.drop_last();
        assert forall|j: int| b <= j < t.len() implies is_white(#[trigger] t[j]) by {
            assert(t[j] == s[j]);
        }
        lemma_trim_end_at(t, b);
        assert(t.take(b) =~= s.take(b));
    }
}

proof fn lemma_digits_value_prefix(d: Seq<char>, i: int)
    requires
        0 <= i <= d.len(),
        forall|j: int| 0 <= j < d.len() ==> is_digit(#[trigger] d[j]),
    ensures
        digits_value(d.take(i)) <= digits_value(d),
    decreases d.len() - i,
{
    if i < d.len() {
        lemma_digits_value_prefix(d, i + 1);
        assert(d.take(i + 1).drop_last() =~= d.take(i));
    } else {
        assert(d.take(i) =~= d);
    }
}

proof fn lemma_count_of_prefix(s: Seq<char>, c: char, i: int)
    requires
        0 <= i < s.len(),
    ensures
        count_of(s.take(i + 1), c) == count_of(s.take(i), c) + if s[i] == c {
            1nat
        } else {
            0nat
        },
{
    assert(s.take(i + 1).drop_last() =~= s.take(i));
}

/// Whether `c` has the Unicode `White_Space` property.
pub fn is_white_char(c: char) -> (r: bool)
    ensures
        r == is_white(c),
{
    let u = c as u32;
    u == 0x20 || (0x09 <= u && u <= 0x0D) || u == 0x85 || u == 0xA0 || u == 0x1680 || (0x2000 <= u
        && u <= 0x200A) || u == 0x2028 || u == 0x2029 || u == 0x202F || u == 0x205F || u == 0x3000
}

/// The characters `lo..hi` of `v`.
fn sub_chars(v: &Vec<char>, lo: usize, hi: usize) -> (r: Vec<char>)
    requires
        lo <= hi <= v@.len(),
    ensures
        r@ == v@.subrange(lo as int, hi as int),
{
    let mut r: Vec<char> = Vec::new();
    let mut i = lo;
    while i < hi
        invariant
            lo <= i <= hi <= v@.len(),
            r@ == v@.subrange(lo as int, i as int),
        decreases hi - i,
    {
        r.push(v[i]);
        i = i + 1;
        assert(r@ =~= v@.subrange(lo as int, i as int));
    }
    r
}

/// The characters of `s`.
fn str_chars(s: &str) -> (r: Vec<char>)
    ensures
        r@ == s@,
{
    let mut r: Vec<char> = Vec::new();
    for c in it: s.chars()
        invariant
            it.seq() == s@,
            r@ == it.seq().take(it.index() as int),
    {
        r.push(c);
        assert(r@ =~= it.seq().take(it.index() + 1));
    }
    assert(r@ =~= s@);
    r
}

/// `v` without its leading white space.
pub fn trim_start_chars(v: &Vec<char>) -> (r: Vec<char>)
    ensures
        r@ == trim_start(v@),
{
    let n = v.len();
    let mut a: usize = 0;
    while a < n && is_white_char(v[a])
        invariant
            a <= n == v@.len(),
            forall|j: int| 0 <= j < a ==> is_white(#[trigger] v@[j]),
        decreases n - a,
    {
        a = a + 1;
    }
    proof {
        lemma_trim_start_at(v@, a as int);
    }
    sub_chars(v, a, n)
}

/// `v` without its leading and trailing white space.
pub fn trim_chars(v: &Vec<char>) -> (r: Vec<char>)
    ensures
        r@ == trim(v@),
{
    let t = trim_start_chars(v);
    let mut b = t.len();
    while b > 0 && is_white_char(t[b - 1])
        invariant
            b <= t@.len(),
            forall|j: int| b <= j < t@.len() ==> is_white(#[trigger] t@[j]),
        decreases b,
    {
        b = b - 1;
    }
    proof {
        lemma_trim_end_at(t@, b as int);
    }
    sub_chars(&t, 0, b)
}

/// What `str::parse::<u32>` gives for `t`.
pub fn parse_u32_chars(t: &Vec<char>) -> (r: Option<u32>)
    ensures
        r == parse_u32(t@),
{
    if t.len() == 0 {
        return None;
    }
    let start: usize = if t[0] == '+' { 1 } else { 0 };
    let ghost d = if t@[0] == '+' { t@.drop_first() } else { t@ };
    assert(d =~= t@.skip(start as int));
    if start >= t.len() {
        return None;
    }
    let mut value: u64 = 0;
    let mut i = start;
    while i < t.len()
        invariant
            start <= i <= t@.len(),
            t@.len() > 0,
            d == (if t@[0] == '+' {
                t@.drop_first()
            } else {
                t@
            }),
            d == t@.skip(start as int),
            value <= u32::MAX,
            forall|j: int| 0 <= j < i - start ==> is_digit(#[trigger] d[j]),
            value == digits_value(d.take(i - start)),
        decreases t@.len() - i,
    {
        let c = t[i];
        let u = c as u32;
        assert(d[i - start] == c);
        if u < 0x30 || u > 0x39 {
            assert(!is_digit(d[i - start]));
            assert(!all_digits(d));
            return None;
        }
        let next: u64 = value * 10 + (u - 0x30) as u64;
        proof {
            assert(d.take(i - start + 1).drop_last() =~= d.take(i - start));
            assert(d.take(i - start + 1).last() == c);
        }
        if next > u32::MAX as u64 {
            proof {
                if all_digits(d) {
                    lemma_digits_value_prefix(d, i - start + 1);
                    assert(digits_value(d) > u32::MAX);
                }
            }
            return None;
        }
        value = next;
        i = i + 1;
    }
    proof {
        assert(d.take(d.len() as int) =~= d);
    }
    Some(value as u32)
}

/// Whether `l` starts with a space or a tab.
pub fn is_indented(l: &Vec<char>) -> (r: bool)
    ensures
        r == indented(l@),
{
    l.len() > 0 && (l[0] == ' ' || l[0] == '\t')
}

/// Whether `l` is the header line that precedes the glyph entries.
pub fn is_header_line(l: &Vec<char>) -> (r: bool)
    ensures
        r == is_header(l@),
{
    let t = trim_start_chars(l);
    let p: [char; 12] = ['c', 'h', 'a', 'r', 's', ' ', 'c', 'o', 'u', 'n', 't', '='];
    let ghost ps = header_prefix();
    assert(p@ =~= ps);
    assert(ps.len() == 12);
    if t.len() < 12 {
        return false;
    }
    let mut i: usize = 0;
    while i < 12
        invariant
            i <= 12 <= t@.len(),
            p@ == ps,
            ps == header_prefix(),
            ps.len() == 12,
            t@ == trim_start(l@),
            forall|j: int| 0 <= j < i ==> t@[j] == ps[j],
        decreases 12 - i,
    {
        if t[i] != p[i] {
            assert(t@.take(12)[i as int] != ps[i as int]);
            assert(!starts_with_header(t@));
            return false;
        }
        i = i + 1;
    }
    assert(t@.take(12) =~= ps);
    true
}

/// The position after the trimmed property line `t` of a glyph at `xy`.
pub fn apply_property_line(t: &Vec<char>, xy: (u32, u32)) -> (r: (u32, u32))
    ensures
        r == apply_property(t@, xy),
{
    if !(t.len() >= 3 && t[0] == 'x' && t[1] == 'y' && t[2] == ':') {
        return xy;
    }
    let v = sub_chars(t, 3, t.len());
    assert(v@ =~= t@.skip(3));
    let n = v.len();
    let mut commas: usize = 0;
    let mut first: usize = n;
    let mut i: usize = 0;
    while i < n
        invariant
            i <= n == v@.len(),
            commas as nat == count_of(v@.take(i as int), ','),
            commas <= i,
            first <= n,
            commas == 0 ==> first == n && forall|j: int| 0 <= j < i ==> v@[j] != ',',
            commas > 0 ==> first < i && v@[first as int] == ',' && forall|j: int|
                0 <= j < first ==> v@[j] != ',',
        decreases n - i,
    {
        proof {
            lemma_count_of_prefix(v@, ',', i as int);
        }
        if v[i] == ',' {
            if commas == 0 {
                first = i;
            }
            commas = commas + 1;
        }
        i = i + 1;
    }
    assert(v@.take(n as int) =~= v@);
    if commas != 1 {
        return xy;
    }
    proof {
        lemma_index_of_found(v@, ',', 0, first as int);
    }
    let left = sub_chars(&v, 0, first);
    let right = sub_chars(&v, first + 1, n);
    assert(left@ =~= v@.take(first as int));
    assert(right@ =~= v@.skip(first + 1));
    let x = match parse_u32_chars(&trim_chars(&left)) {
        Some(n) => n,
        None => 0,
    };
    let y = match parse_u32_chars(&trim_chars(&right)) {
        Some(n) => n,
        None => 0,
    };
    (x, y)
}

/// The lines of `s`, as `str::lines` splits them.
pub fn split_lines(s: &Vec<char>) -> (r: Vec<Vec<char>>)
    ensures
        r@.len() == lines(s@).len(),
        forall|j: int| 0 <= j < r@.len() ==> #[trigger] r@[j]@ == lines(s@)[j],
{
    let n = s.len();
    let mut out: Vec<Vec<char>> = Vec::new();
    let ghost mut ov: Seq<Seq<char>> = Seq::empty();
    let mut start: usize = 0;
    let mut i: usize = 0;
    while i < n
        invariant
            start <= i <= n == s@.len(),
            forall|j: int| start <= j < i ==> s@[j] != '\n',
            out@.len() == ov.len(),
            forall|j: int| 0 <= j < ov.len() ==> #[trigger] out@[j]@ == ov[j],
            ov + lines_from(s@, start as int) == lines(s@),
        decreases n - i,
    {
        if s[i] == '\n' {
            let mut line = sub_chars(s, start, i);
            if line.len() > 0 && line[line.len() - 1] == '\r' {
                line.pop();
            }
            proof {
                lemma_index_of_found(s@, '\n', start as int, i as int);
                assert(line@ == strip_cr(s@.subrange(start as int, i as int)));
                assert(lines_from(s@, start as int) == seq![line@] + lines_from(s@, i + 1));
                assert(ov + lines_from(s@, start as int) =~= ov.push(line@) + lines_from(
                    s@,
                    i + 1,
                ));
                ov = ov.push(line@);
            }
            out.push(line);
            start = i + 1;
        }
        i = i + 1;
    }
    if start < n {
        let line = sub_chars(s, start, n);
        proof {
            lemma_index_of_found(s@, '\n', start as int, n as int);
            assert(lines_from(s@, start as int) == seq![line@]);
            assert(ov + lines_from(s@, start as int) =~= ov.push(line@));
            ov = ov.push(line@);
        }
        out.push(line);
    } else {
        assert(ov + lines_from(s@, start as int) =~= ov);
    }
    out
}

/// The pixel position of each glyph of the atlas description `atlas_str`, by
/// character code.
pub fn parse_atlas_glyphs(atlas_str: &str) -> (r: HashMap<u32, (u32, u32)>)
    ensures
        r@ == parse_atlas(atlas_str@),
{
    let chars = str_chars(atlas_str);
    let ls = split_lines(&chars);
    let ghost lv = lines(chars@);
    let n = ls.len();
    let mut k: usize = 0;
    while k < n && !is_header_line(&ls[k])
        invariant
            k <= n == lv.len(),
            n == ls@.len(),
            forall|j: int| 0 <= j < n ==> #[trigger] ls@[j]@ == lv[j],
            header_index(lv, 0) == header_index(lv, k as int),
        decreases n - k,
    {
        k = k + 1;
    }
    let ghost h = header_index(lv, 0);
    if k < n {
        k = k + 1;
    }
    let mut pending: Option<(char, (u32, u32))> = None;
    let mut acc: HashMap<u32, (u32, u32)> = HashMap::new();
    assert(glyph_entries(lv, h + 1, None, Map::empty()) == glyph_entries(lv, k as int, None, acc@));
    while k < n
        invariant
            k <= n == lv.len(),
            n == ls@.len(),
            forall|j: int| 0 <= j < n ==> #[trigger] ls@[j]@ == lv[j],
            glyph_entries(lv, h + 1, None, Map::empty()) == glyph_entries(
                lv,
                k as int,
                pending,
                acc@,
            ),
        decreases n - k,
    {
        let line = &ls[k];
        let ind = is_indented(line);
        match pending {
            Some((ch, xy)) if ind => {
                let t = trim_chars(line);
                pending = Some((ch, apply_property_line(&t, xy)));
            },
            _ => {
                if let Some((ch, xy)) = pending {
                    acc.insert(ch as u32, xy);
                }
                if line.len() == 0 || ind {
                    pending = None;
                } else {
                    pending = Some((line[0], (0u32, 0u32)));
                }
            },
        }
        k = k + 1;
    }
    if let Some((ch, xy)) = pending {
        acc.insert(ch as u32, xy);
    }
    assert(chars@ == atlas_str@);
    acc
}

/// A bitmap font atlas: the size of its texture and of each glyph cell, and
/// the pixel position of each glyph by character code.
pub struct FontAtlas {
    pub texture_width: u32,
    pub texture_height: u32,
    pub glyph_width: u32,
    pub glyph_height: u32,
    pub glyphs: HashMap<u32, (u32, u32)>,
}

impl FontAtlas {
    /// Reads the glyph positions from the atlas description `atlas_str` of the
    /// texture `img`, whose cells are `glyph_width` x `glyph_height` pixels.
    /// The texture size is that of the image.
    pub fn new(img: &DynamicImage, glyph_width: u32, glyph_height: u32, atlas_str: &str) -> (r:
        Self)
        ensures
            (r.texture_width, r.texture_height) == image_size(*img),
            r.glyph_width == glyph_width,
            r.glyph_height == glyph_height,
            r.glyphs@ == parse_atlas(atlas_str@),
    {
        let (texture_width, texture_height) = image_dimensions(img);
        Self::from_parts(texture_width, texture_height, glyph_width, glyph_height, atlas_str)
    }

    /// The atlas of a `texture_width` x `texture_height` texture described by
    /// `atlas_str`, whose cells are `glyph_width` x `glyph_height` pixels.
    pub fn from_parts(
        texture_width: u32,
        texture_height: u32,
        glyph_width: u32,
        glyph_height: u32,
        atlas_str: &str,
    ) -> (r: Self)
        ensures
            r.texture_width == texture_width,
            r.texture_height == texture_height,
            r.glyph_width == glyph_width,
            r.glyph_height == glyph_height,
            r.glyphs@ == parse_atlas(atlas_str@),
    {
        let glyphs = parse_atlas_glyphs(atlas_str);
        Self { texture_width, texture_height, glyph_width, glyph_height, glyphs }
    }

    /// The pixel position of the glyph of `c` in the texture, if the atlas has one.
    pub fn glyph_origin(&self, c: char) -> (r: Option<(u32, u32)>)
        ensures
            r == (if self.glyphs@.contains_key(c as u32) {
                Some(self.glyphs@[c as u32])
            } else {
                None
            }),
    {
        match self.glyphs.get(&(c as u32)) {
            Some(xy) => Some(*xy),
            None => None,
        }
    }
}

} // verus!
