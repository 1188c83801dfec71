//! Character-level text rules used by the map formats: whitespace trimming,
//! field splitting, and the conversions between `String` and characters.

use vstd::prelude::*;
use vstd::utf8::{valid_utf8, decode_utf8};

verus! {

/// `char::is_whitespace`: the characters with the Unicode `White_Space` property.
pub open spec fn is_ws(c: char) -> bool {
    let v = c as u32;
    ||| 9 <= v <= 13
    ||| v == 0x20
    ||| v == 0x85
    ||| v == 0xA0
    ||| v == 0x1680
    ||| 0x2000 <= v <= 0x200A
    ||| v == 0x2028
    ||| v == 0x2029
    ||| v == 0x202F
    ||| v == 0x205F
    ||| v == 0x3000
}

pub fn is_whitespace(c: char) -> (r: bool)
    ensures
        r == is_ws(c),
{
    let v = c as u32;
    (9 <= v && v <= 13) || v == 0x20 || v == 0x85 || v == 0xA0 || v == 0x1680 || (0x2000 <= v
        && v <= 0x200A) || v == 0x2028 || v == 0x2029 || v == 0x202F || v == 0x205F || v == 0x3000
}

/// `s` without its leading whitespace.
pub open spec fn trim_start(s: Seq<char>) -> Seq<char>
    decreases s.len(),
{
    if s.len() > 0 && is_ws(s[0]) {
        trim_start(s.drop_first())
    } else {
        s
    }
}

/// `s` without its trailing whitespace.
pub open spec fn trim_end(s: Seq<char>) -> Seq<char>
    decreases s.len(),
{
    if s.len() > 0 && is_ws(s.last()) {
        trim_end(s.drop_last())
    } else {
        s
    }
}

/// `str::trim`: `s` without leading and trailing whitespace.
pub open spec fn trim(s: Seq<char>) -> Seq<char> {
    trim_end(trim_start(s))
}

/// `s` without the carriage returns at its end (`trim_end_matches('\r')`).
pub open spec fn trim_end_cr(s: Seq<char>) -> Seq<char>
    decreases s.len(),
{
    if s.len() > 0 && s.last() == '\r' {
        trim_end_cr(s.drop_last())
    } else {
        s
    }
}

proof fn lemma_trim_start_skip(s: Seq<char>, i: int)
    requires
        0 <= i <= s.len(),
        forall|k: int| 0 <= k < i ==> is_ws(#[trigger] s[k]),
    ensures
        trim_start(s) == trim_start(s.subrange(i, s.len() as int)),
    decreases i,
{
    if i > 0 {
        let t = s.drop_first();
        assert forall|k: int| 0 <= k < i - 1 implies is_ws(#[trigger] t[k]) by {
            assert(t[k] == s[k + 1]);
        }
        lemma_trim_start_skip(t, i - 1);
        assert(t.subrange(i - 1, t.len() as int) =~= s.subrange(i, s.len() as int));
    } else {
        assert(s.subrange(0, s.len() as int) =~= s);
    }
}

proof fn lemma_trim_end_cut(s: Seq<char>, j: int)
    requires
        0 <= j <= s.len(),
        forall|k: int| j <= k < s.len() ==> is_ws(#[trigger] s[k]),
    ensures
        trim_end(s) == trim_end(s.subrange(0, j)),
    decreases s.len() - j,
{
    if j < s.len() {
        let t = s.drop_last();
        assert forall|k: int| j <= k < t.len() implies is_ws(#[trigger] t[k]) by {
            assert(t[k] == s[k]);
        }
        lemma_trim_end_cut(t, j);
        assert(t.subrange(0, j) =~= s.subrange(0, j));
    } else {
        assert(s.subrange(0, j) =~= s);
    }
}

/// `str::trim` on characters.
pub fn trim_chars(s: &[char]) -> (r: Vec<char>)
    ensures
        r@ == trim(s@),
{
    let len = s.len();
    let mut i: usize = 0;
    while i < len && is_whitespace(s[i])
        invariant
            0 <= i <= len,
            len == s@.len(),
            forall|k: int| 0 <= k < i ==> is_ws(#[trigger] s@[k]),
        decreases len - i,
    {
        i = i + 1;
    }
    proof {
        lemma_trim_start_skip(s@, i as int);
    }
    let ghost rest = s@.subrange(i as int, len as int);
    assert(trim_start(rest) == rest);
    let mut j: usize = len;
    while j > i && is_whitespace(s[j - 1])
        invariant
            i <= j <= len,
            len == s@.len(),
            forall|k: int| j <= k < len ==> is_ws(#[trigger] s@[k]),
        decreases j,
    {
        j = j - 1;
    }
    proof {
        let rj = (j - i) as int;
        assert forall|k: int| rj <= k < rest.len() implies is_ws(#[trigger] rest[k]) by {
            assert(rest[k] == s@[k + i]);
        }
        lemma_trim_end_cut(rest, rj);
        let cut = rest.subrange(0, rj);
        assert(cut =~= s@.subrange(i as int, j as int));
        if cut.len() > 0 {
            assert(cut.last() == s@[j - 1]);
        }
        assert(trim_end(cut) == cut);
    }
    slice_to_vec_chars(s, i, j)
}

/// Copy of `s[i..j]`.
pub fn slice_to_vec_chars(s: &[char], i: usize, j: usize) -> (r: Vec<char>)
    requires
        i <= j <= s@.len(),
    ensures
        r@ == s@.subrange(i as int, j as int),
{
    vstd::slice::slice_to_vec(vstd::slice::slice_subrange(s, i, j))
}

/// `str::trim_end_matches('\r')` on characters.
pub fn trim_end_cr_chars(s: &[char]) -> (r: Vec<char>)
    ensures
        r@ == trim_end_cr(s@),
{
    let mut j: usize = s.len();
    assert(s@.subrange(0, j as int) =~= s@);
    while j > 0 && s[j - 1] == '\r'
        invariant
            j <= s@.len(),
            trim_end_cr(s@) == trim_end_cr(s@.subrange(0, j as int)),
        decreases j,
    {
        proof {
            let t = s@.subrange(0, j as int);
            assert(t.drop_last() =~= s@.subrange(0, j - 1));
        }
        j = j - 1;
    }
    proof {
        let t = s@.subrange(0, j as int);
        if j == s@.len() {
            assert(t =~= s@);
        }
    }
    slice_to_vec_chars(s, 0, j)
}

/// Whether `" - "` starts at `i` in `s`.
pub open spec fn dash_at(s: Seq<char>, i: int) -> bool {
    0 <= i && i + 3 <= s.len() && s[i] == ' ' && s[i + 1] == '-' && s[i + 2] == ' '
}

/// `str::find(" - ")` from `i` on: the first position at or after `i` where `" - "` starts.
pub open spec fn find_dash_from(s: Seq<char>, i: int) -> Option<int>
    decreases s.len() - i,
{
    if i < 0 || i + 3 > s.len() {
        None
    } else if dash_at(s, i) {
        Some(i)
    } else {
        find_dash_from(s, i + 1)
    }
}

/// Split a name line: `"Artist - Title"` gives the trimmed artist and title; a line
/// without `" - "` gives an empty artist and the trimmed line as title.
pub open spec fn split_name(s: Seq<char>) -> (Seq<char>, Seq<char>) {
    match find_dash_from(s, 0) {
        Some(i) => (trim(s.subrange(0, i)), trim(s.subrange(i + 3, s.len() as int))),
        None => (Seq::empty(), trim(s)),
    }
}

proof fn lemma_find_dash_after(s: Seq<char>, i: int, k: int)
    requires
        0 <= i <= k,
        dash_at(s, k),
        forall|j: int| 0 <= j < k ==> s[j] != '-',
    ensures
        find_dash_from(s, i) == Some(k),
    decreases k - i,
{
    if i < k {
        assert(s[i + 1] != '-' || i + 1 == k);
        if i + 1 == k {
            assert(s[i + 2] == '-');
        }
        assert(!dash_at(s, i));
        lemma_find_dash_after(s, i + 1, k);
    }
}

proof fn lemma_find_dash_none(s: Seq<char>, i: int)
    requires
        0 <= i,
        forall|j: int| 0 <= j < s.len() ==> s[j] != '-',
    ensures
        find_dash_from(s, i) is None,
    decreases s.len() - i,
{
    if i + 3 <= s.len() {
        assert(!dash_at(s, i));
        lemma_find_dash_none(s, i + 1);
    }
}

/// A name line `"Artist - Title"` (no `'-'` in the artist) splits into the trimmed
/// artist and the trimmed title; a line without `'-'` is all title.
pub proof fn lemma_split_name_parts(a: Seq<char>, t: Seq<char>)
    requires
        forall|j: int| 0 <= j < a.len() ==> a[j] != '-',
    ensures
        split_name(a + " - "@ + t) == (trim(a), trim(t)),
        split_name(a) == (Seq::<char>::empty(), trim(a)),
{
    reveal_strlit(" - ");
    let s = a + " - "@ + t;
    let k = a.len() as int;
    assert(s[k] == ' ' && s[k + 1] == '-' && s[k + 2] == ' ');
    assert forall|j: int| 0 <= j < k implies s[j] != '-' by {
        assert(s[j] == a[j]);
    }
    lemma_find_dash_after(s, 0, k);
    assert(s.subrange(0, k) =~= a);
    assert(s.subrange(k + 3, s.len() as int) =~= t);
    lemma_find_dash_none(a, 0);
}

pub fn find_dash(s: &[char]) -> (r: Option<usize>)
    ensures
        match r {
            Some(k) => find_dash_from(s@, 0) == Some(k as int),
            None => find_dash_from(s@, 0) is None,
        },
        r matches Some(k) ==> dash_at(s@, k as int),
{
    let len = s.len();
    let mut i: usize = 0;
    while len >= 3 && i <= len - 3
        invariant
            len == s@.len(),
            find_dash_from(s@, 0) == find_dash_from(s@, i as int),
        decreases len - i,
    {
        if s[i] == ' ' && s[i + 1] == '-' && s[i + 2] == ' ' {
            return Some(i);
        }
        i = i + 1;
    }
    None
}

pub fn split_name_chars(s: &[char]) -> (r: (Vec<char>, Vec<char>))
    ensures
        (r.0@, r.1@) == split_name(s@),
{
    let len = s.len();
    let f = find_dash(s);
    match f {
        Some(i) => {
            assert(dash_at(s@, i as int));
            let a = slice_to_vec_chars(s, 0, i);
            let t = slice_to_vec_chars(s, i + 3, len);
            let ra = trim_chars(a.as_slice());
            let rt = trim_chars(t.as_slice());
            assert(find_dash_from(s@, 0) == Some(i as int));
            assert(ra@ == trim(s@.subrange(0, i as int)));
            assert(rt@ == trim(s@.subrange(i + 3, s@.len() as int)));
            (ra, rt)
        },
        None => {
            let r = (Vec::new(), trim_chars(s));
            assert(r.0@ =~= Seq::<char>::empty());
            r
        },
    }
}

/// `str::split` at any of the characters `seps`: the fields between separators,
/// empty ones included; a text with no separator is one field.
pub open spec fn split_fields(s: Seq<char>, seps: Seq<char>) -> Seq<Seq<char>>
    decreases s.len(),
{
    if s.len() == 0 {
        seq![Seq::empty()]
    } else {
        let prev = split_fields(s.drop_last(), seps);
        if seps.contains(s.last()) {
            prev.push(Seq::empty())
        } else {
            prev.update(prev.len() - 1, prev.last().push(s.last()))
        }
    }
}

pub proof fn lemma_split_fields_nonempty(s: Seq<char>, seps: Seq<char>)
    ensures
        split_fields(s, seps).len() >= 1,
    decreases s.len(),
{
    if s.len() > 0 {
        lemma_split_fields_nonempty(s.drop_last(), seps);
    }
}

/// Text without any of the separators is one field.
pub proof fn lemma_split_fields_no_sep(s: Seq<char>, seps: Seq<char>)
    requires
        forall|k: int| 0 <= k < s.len() ==> !seps.contains(#[trigger] s[k]),
    ensures
        split_fields(s, seps) == seq![s],
    decreases s.len(),
{
    if s.len() > 0 {
        let t = s.drop_last();
        assert forall|k: int| 0 <= k < t.len() implies !seps.contains(#[trigger] t[k]) by {
            assert(t[k] == s[k]);
        }
        lemma_split_fields_no_sep(t, seps);
        assert(!seps.contains(s[s.len() - 1]));
        assert(t.push(s.last()) =~= s);
    } else {
        assert(s =~= Seq::<char>::empty());
    }
}

/// Splitting at a separator: the fields before it, then the fields after it.
pub proof fn lemma_split_fields_at_sep(x: Seq<char>, c: char, y: Seq<char>, seps: Seq<char>)
    requires
        seps.contains(c),
    ensures
        split_fields(x + seq![c] + y, seps) == split_fields(x, seps) + split_fields(y, seps),
    decreases y.len(),
{
    let z = x + seq![c] + y;
    if y.len() == 0 {
        assert(z.drop_last() =~= x);
        assert(z.last() == c);
        assert(split_fields(z, seps) =~= split_fields(x, seps) + split_fields(y, seps));
    } else {
        let yd = y.drop_last();
        assert(z.drop_last() =~= x + seq![c] + yd);
        assert(z.last() == y.last());
        lemma_split_fields_at_sep(x, c, yd, seps);
        lemma_split_fields_nonempty(yd, seps);
        let a = split_fields(x, seps);
        let b = split_fields(yd, seps);
        if seps.contains(y.last()) {
            assert(split_fields(z, seps) =~= a + split_fields(y, seps));
        } else {
            assert((a + b).last() == b.last());
            assert((a + b).update((a + b).len() - 1, (a + b).last().push(y.last())) =~= a + b.update(
                b.len() - 1,
                b.last().push(y.last()),
            ));
            assert(split_fields(z, seps) =~= a + split_fields(y, seps));
        }
    }
}

/// The models of a vector of character vectors.
pub open spec fn chars_views(v: Seq<Vec<char>>) -> Seq<Seq<char>> {
    v.map_values(|f: Vec<char>| f@)
}

pub fn contains_char(seps: &[char], c: char) -> (r: bool)
    ensures
        r == seps@.contains(c),
{
    let mut i: usize = 0;
    while i < seps.len()
        invariant
            i <= seps@.len(),
            forall|k: int| 0 <= k < i ==> seps@[k] != c,
        decreases seps@.len() - i,
    {
        if seps[i] == c {
            return true;
        }
        i = i + 1;
    }
    false
}

pub fn split_chars(s: &[char], seps: &[char]) -> (r: Vec<Vec<char>>)
    ensures
        chars_views(r@) == split_fields(s@, seps@),
{
    let mut fields: Vec<Vec<char>> = Vec::new();
    let mut cur: Vec<char> = Vec::new();
    let mut i: usize = 0;
    proof {
        assert(s@.subrange(0, 0) =~= Seq::<char>::empty());
        assert(chars_views(fields@).push(cur@) =~= seq![Seq::<char>::empty()]);
    }
    while i < s.len()
        invariant
            i <= s@.len(),
            chars_views(fields@).push(cur@) == split_fields(s@.subrange(0, i as int), seps@),
        decreases s@.len() - i,
    {
        let c = s[i];
        let ghost pre = s@.subrange(0, i as int);
        let ghost next = s@.subrange(0, i + 1);
        assert(next.drop_last() =~= pre);
        assert(next.last() == c);
        if contains_char(seps, c) {
            let done = cur;
            fields.push(done);
            cur = Vec::new();
            assert(chars_views(fields@).push(cur@) =~= split_fields(pre, seps@).push(
                Seq::empty(),
            ));
        } else {
            let ghost old_cur = cur@;
            cur.push(c);
            proof {
                let prev = split_fields(pre, seps@);
                assert(prev.last() == old_cur);
                assert(chars_views(fields@).push(cur@) =~= prev.update(
                    prev.len() - 1,
                    prev.last().push(c),
                ));
            }
        }
        i = i + 1;
    }
    assert(s@.subrange(0, s@.len() as int) =~= s@);
    fields.push(cur);
    assert(chars_views(fields@) =~= split_fields(s@, seps@));
    fields
}

/// The trimmed fields that are not empty, in order
/// (`.map(|s| s.trim()).filter(|s| !s.is_empty())`).
pub open spec fn nonempty_trimmed(fields: Seq<Seq<char>>) -> Seq<Seq<char>>
    decreases fields.len(),
{
    if fields.len() == 0 {
        Seq::empty()
    } else {
        let prev = nonempty_trimmed(fields.drop_last());
        let t = trim(fields.last());
        if t.len() > 0 {
            prev.push(t)
        } else {
            prev
        }
    }
}

/// The first line of a text (`str::lines().next().unwrap_or("")`): the characters
/// before the first `'\n'`, without one `'\r'` that ends them; the whole text when
/// it holds no `'\n'`.
pub open spec fn first_line(s: Seq<char>) -> Seq<char> {
    match find_char_from(s, '\n', 0) {
        Some(i) => {
            let l = s.subrange(0, i);
            if l.len() > 0 && l.last() == '\r' {
                l.drop_last()
            } else {
                l
            }
        },
        None => s,
    }
}

/// The first position at or after `i` that holds `c`.
pub open spec fn find_char_from(s: Seq<char>, c: char, i: int) -> Option<int>
    decreases s.len() - i,
{
    if i < 0 || i >= s.len() {
        None
    } else if s[i] == c {
        Some(i)
    } else {
        find_char_from(s, c, i + 1)
    }
}

pub fn first_line_chars(s: &[char]) -> (r: Vec<char>)
    ensures
        r@ == first_line(s@),
{
    let mut i: usize = 0;
    while i < s.len()
        invariant
            i <= s@.len(),
            find_char_from(s@, '\n', 0) == find_char_from(s@, '\n', i as int),
        decreases s@.len() - i,
    {
        if s[i] == '\n' {
            if i > 0 && s[i - 1] == '\r' {
                let r = slice_to_vec_chars(s, 0, i - 1);
                assert(r@ =~= s@.subrange(0, i as int).drop_last());
                return r;
            }
            return slice_to_vec_chars(s, 0, i);
        }
        i = i + 1;
    }
    let r = slice_to_vec_chars(s, 0, s.len());
    assert(r@ =~= s@);
    r
}

/// Text decoded from bytes by `String::from_utf8_lossy`.
pub uninterp spec fn utf8_lossy(bytes: Seq<u8>) -> Seq<char>;

/// `String::from_utf8_lossy`: the text that `bytes` encode, each invalid sequence
/// replaced by U+FFFD. The contract names the result and states that valid UTF-8 is
/// decoded unchanged; how invalid sequences are replaced is left unsaid.
#[verifier::external_body]
pub fn decode_lossy(bytes: &[u8]) -> (s: String)
    ensures
        s@ == utf8_lossy(bytes@),
        valid_utf8(bytes@) ==> s@ == decode_utf8(bytes@),
{
    String::from_utf8_lossy(bytes).into_owned()
}

/// `str::chars` collected: the characters of `s`.
#[verifier::external_body]
pub fn str_chars(s: &str) -> (v: Vec<char>)
    ensures
        v@ == s@,
{
    s.chars().collect()
}

/// `String::from_iter` over characters: the text made of `v`.
#[verifier::external_body]
pub fn string_from_chars(v: &[char]) -> (s: String)
    ensures
        s@ == v@,
{
    v.iter().collect()
}


/// The position of the last `c` in `s` before `i`.
pub open spec fn rfind_char_before(s: Seq<char>, c: char, i: int) -> Option<int>
    decreases i,
{
    if i <= 0 || i > s.len() {
        None
    } else if s[i - 1] == c {
        Some(i - 1)
    } else {
        rfind_char_before(s, c, i - 1)
    }
}

/// The file extension of a name (`rsplit('.').next()`): what follows the last
/// `'.'`, or the whole name when it has none.
pub open spec fn extension_of(name: Seq<char>) -> Seq<char> {
    match rfind_char_before(name, '.', name.len() as int) {
        Some(i) => name.subrange(i + 1, name.len() as int),
        None => name,
    }
}

pub fn extension_chars(name: &[char]) -> (r: Vec<char>)
    ensures
        r@ == extension_of(name@),
{
    let len = name.len();
    let mut i: usize = len;
    while i > 0
        invariant
            i <= len,
            len == name@.len(),
            rfind_char_before(name@, '.', len as int) == rfind_char_before(name@, '.', i as int),
        decreases i,
    {
        if name[i - 1] == '.' {
            return slice_to_vec_chars(name, i, len);
        }
        i = i - 1;
    }
    slice_to_vec_chars(name, 0, len)
}

/// ASCII letters in lower case, other characters unchanged.
pub open spec fn ascii_lower(c: char) -> char {
    if 'A' <= c <= 'Z' {
        ((c as u32) + 32) as char
    } else {
        c
    }
}

pub open spec fn all_ascii(s: Seq<char>) -> bool {
    forall|i: int| 0 <= i < s.len() ==> (#[trigger] s[i] as u32) < 128
}

/// Text in lower case by `str::to_lowercase`.
pub uninterp spec fn lowercase(s: Seq<char>) -> Seq<char>;

/// `str::to_lowercase`: the lower case of the text, by the Unicode rules. The
/// contract names the result and states it for ASCII text only, where each
/// capital letter becomes its small letter.
#[verifier::external_body]
pub fn to_lowercase(s: &str) -> (r: String)
    ensures
        r@ == lowercase(s@),
        all_ascii(s@) ==> r@ == s@.map_values(|c: char| ascii_lower(c)),
{
    s.to_lowercase()
}

} // verus!
