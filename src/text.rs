use vstd::prelude::*;

verus! {

broadcast use vstd::string::group_string_axioms;

/// Unicode `White_Space`: the characters that `str::trim` and `\s` treat as blank.
pub open spec fn is_ws(c: char) -> bool {
    let u = c as u32;
    u == 0x20 || (0x09 <= u && u <= 0x0d) || u == 0x85 || u == 0xa0 || u == 0x1680 || (0x2000 <= u
        && u <= 0x200a) || u == 0x2028 || u == 0x2029 || u == 0x202f || u == 0x205f || u == 0x3000
}

/// ASCII letters, digits and `_`: the characters of an identifier.
pub open spec fn is_word(c: char) -> bool {
    let u = c as u32;
    (0x30 <= u && u <= 0x39) || (0x41 <= u && u <= 0x5a) || (0x61 <= u && u <= 0x7a) || u == 0x5f
}

/// ASCII decimal digits.
pub open spec fn is_digit(c: char) -> bool {
    let u = c as u32;
    0x30 <= u && u <= 0x39
}

pub fn is_ws_char(c: char) -> (r: bool)
    ensures
        r == is_ws(c),
{
    let u = c as u32;
    u == 0x20 || (0x09 <= u && u <= 0x0d) || u == 0x85 || u == 0xa0 || u == 0x1680 || (0x2000 <= u
        && u <= 0x200a) || u == 0x2028 || u == 0x2029 || u == 0x202f || u == 0x205f || u == 0x3000
}

pub fn is_word_char(c: char) -> (r: bool)
    ensures
        r == is_word(c),
{
    let u = c as u32;
    (0x30 <= u && u <= 0x39) || (0x41 <= u && u <= 0x5a) || (0x61 <= u && u <= 0x7a) || u == 0x5f
}

pub fn is_digit_char(c: char) -> (r: bool)
    ensures
        r == is_digit(c),
{
    let u = c as u32;
    0x30 <= u && u <= 0x39
}

/// The characters of `s`, in order.
pub fn chars_of(s: &str) -> (r: Vec<char>)
    ensures
        r@ == s@,
{
    let mut out: Vec<char> = Vec::new();
    for c in it: s.chars()
        invariant
            out@ == it.seq().take(it.index() as int),
            it.seq() == s@,
    {
        out.push(c);
    }
    out
}

/// Relies on `FromIterator<char>` for `String`: the string holds the given characters.
#[verifier::external_body]
pub fn string_of(v: &Vec<char>) -> (r: String)
    ensures
        r@ == v@,
{
    v.iter().collect()
}

/// `lit` occurs in `s` at position `i`.
pub open spec fn has_at(s: Seq<char>, i: int, lit: Seq<char>) -> bool {
    0 <= i && i + lit.len() <= s.len() && s.subrange(i, i + lit.len()) == lit
}

/// End of the run of blanks that starts at `i`.
pub open spec fn ws_end(s: Seq<char>, i: int) -> int
    decreases s.len() - i,
{
    if 0 <= i < s.len() && is_ws(s[i]) {
        ws_end(s, i + 1)
    } else {
        i
    }
}

/// End of the run of ASCII digits that starts at `i`.
pub open spec fn digits_end(s: Seq<char>, i: int) -> int
    decreases s.len() - i,
{
    if 0 <= i < s.len() && is_digit(s[i]) {
        digits_end(s, i + 1)
    } else {
        i
    }
}

/// First position at or after `i` where `lit` occurs.
pub open spec fn find_from(s: Seq<char>, i: int, lit: Seq<char>) -> Option<int>
    decreases s.len() + 1 - i,
{
    if i < 0 || i + lit.len() > s.len() {
        None
    } else if has_at(s, i, lit) {
        Some(i)
    } else {
        find_from(s, i + 1, lit)
    }
}

/// First position at or after `i` that holds `c`.
pub open spec fn find_char_from(s: Seq<char>, i: int, c: char) -> Option<int>
    decreases s.len() - i,
{
    if i < 0 || i >= s.len() {
        None
    } else if s[i] == c {
        Some(i)
    } else {
        find_char_from(s, i + 1, c)
    }
}

/// Start of the run of blanks that ends at `j` (exclusive).
pub open spec fn ws_start_back(s: Seq<char>, j: int) -> int
    decreases j,
{
    if 0 < j <= s.len() && is_ws(s[j - 1]) {
        ws_start_back(s, j - 1)
    } else {
        j
    }
}

/// `s` without leading blanks.
pub open spec fn trim_start(s: Seq<char>) -> Seq<char> {
    s.subrange(ws_end(s, 0), s.len() as int)
}

/// `s` without leading or trailing blanks.
pub open spec fn trim(s: Seq<char>) -> Seq<char> {
    let a = ws_end(s, 0);
    let b = ws_start_back(s, s.len() as int);
    if a < b {
        s.subrange(a, b)
    } else {
        Seq::empty()
    }
}

pub proof fn lemma_ws_end_bounds(s: Seq<char>, i: int)
    requires
        0 <= i <= s.len(),
    ensures
        i <= ws_end(s, i) <= s.len(),
        forall|k: int| i <= k < ws_end(s, i) ==> is_ws(#[trigger] s[k]),
        ws_end(s, i) < s.len() ==> !is_ws(s[ws_end(s, i)]),
    decreases s.len() - i,
{
    if i < s.len() && is_ws(s[i]) {
        lemma_ws_end_bounds(s, i + 1);
    }
}

pub proof fn lemma_digits_end_bounds(s: Seq<char>, i: int)
    requires
        0 <= i <= s.len(),
    ensures
        i <= digits_end(s, i) <= s.len(),
        forall|k: int| i <= k < digits_end(s, i) ==> is_digit(#[trigger] s[k]),
        digits_end(s, i) < s.len() ==> !is_digit(s[digits_end(s, i)]),
    decreases s.len() - i,
{
    if i < s.len() && is_digit(s[i]) {
        lemma_digits_end_bounds(s, i + 1);
    }
}

pub proof fn lemma_ws_start_back_bounds(s: Seq<char>, j: int)
    requires
        0 <= j <= s.len(),
    ensures
        0 <= ws_start_back(s, j) <= j,
    decreases j,
{
    if 0 < j && is_ws(s[j - 1]) {
        lemma_ws_start_back_bounds(s, j - 1);
    }
}

pub proof fn lemma_find_from_bounds(s: Seq<char>, i: int, lit: Seq<char>)
    requires
        0 <= i,
    ensures
        find_from(s, i, lit) is Some ==> {
            let k = find_from(s, i, lit)->0;
            i <= k && has_at(s, k, lit)
        },
    decreases s.len() + 1 - i,
{
    if i + lit.len() <= s.len() && !has_at(s, i, lit) {
        lemma_find_from_bounds(s, i + 1, lit);
    }
}

pub proof fn lemma_find_char_from_bounds(s: Seq<char>, i: int, c: char)
    requires
        0 <= i,
    ensures
        find_char_from(s, i, c) is Some ==> {
            let k = find_char_from(s, i, c)->0;
            i <= k < s.len() && s[k] == c
        },
    decreases s.len() - i,
{
    if i < s.len() && s[i] != c {
        lemma_find_char_from_bounds(s, i + 1, c);
    }
}

/// Position where the blanks starting at `i` end.
pub fn skip_ws(s: &Vec<char>, i: usize) -> (r: usize)
    requires
        i <= s.len(),
    ensures
        r == ws_end(s@, i as int),
        i <= r <= s.len(),
{
    proof {
        lemma_ws_end_bounds(s@, i as int);
    }
    let mut k = i;
    while k < s.len() && is_ws_char(s[k])
        invariant
            i <= k <= s.len(),
            ws_end(s@, k as int) == ws_end(s@, i as int),
        decreases s.len() - k,
    {
        k = k + 1;
    }
    k
}

/// Position where the digits starting at `i` end.
pub fn skip_digits(s: &Vec<char>, i: usize) -> (r: usize)
    requires
        i <= s.len(),
    ensures
        r == digits_end(s@, i as int),
        i <= r <= s.len(),
{
    let mut k = i;
    while k < s.len() && is_digit_char(s[k])
        invariant
            i <= k <= s.len(),
            digits_end(s@, k as int) == digits_end(s@, i as int),
        decreases s.len() - k,
    {
        k = k + 1;
    }
    k
}

/// Whether `lit` occurs in `s` at position `i`.
pub fn at(s: &Vec<char>, i: usize, lit: &Vec<char>) -> (r: bool)
    ensures
        r == has_at(s@, i as int, lit@),
{
    if i > s.len() || lit.len() > s.len() - i {
        return false;
    }
    let mut k: usize = 0;
    while k < lit.len()
        invariant
            i + lit.len() <= s.len(),
            k <= lit.len(),
            forall|m: int| 0 <= m < k ==> s@[i + m] == lit@[m],
        decreases lit.len() - k,
    {
        if s[i + k] != lit[k] {
            assert(s@.subrange(i as int, i + lit.len())[k as int] != lit@[k as int]);
            return false;
        }
        k = k + 1;
    }
    assert(s@.subrange(i as int, i + lit.len()) =~= lit@);
    true
}

/// First position at or after `i` where `lit` occurs.
pub fn find(s: &Vec<char>, i: usize, lit: &Vec<char>) -> (r: Option<usize>)
    ensures
        r matches Some(k) ==> find_from(s@, i as int, lit@) == Some(k as int),
        r is None ==> find_from(s@, i as int, lit@) is None,
{
    let mut k = i;
    while k < s.len() && lit.len() <= s.len() - k
        invariant
            i <= k,
            find_from(s@, k as int, lit@) == find_from(s@, i as int, lit@),
        decreases s.len() - k,
    {
        if at(s, k, lit) {
            return Some(k);
        }
        k = k + 1;
    }
    if k <= s.len() && lit.len() <= s.len() - k && at(s, k, lit) {
        return Some(k);
    }
    proof {
        if k <= s.len() && lit.len() <= s.len() - k {
            assert(find_from(s@, k + 1, lit@) is None);
        }
    }
    None
}

/// First position at or after `i` that holds `c`.
pub fn find_char(s: &Vec<char>, i: usize, c: char) -> (r: Option<usize>)
    ensures
        r matches Some(k) ==> find_char_from(s@, i as int, c) == Some(k as int),
        r is None ==> find_char_from(s@, i as int, c) is None,
{
    let mut k = i;
    while k < s.len()
        invariant
            i <= k,
            find_char_from(s@, k as int, c) == find_char_from(s@, i as int, c),
        decreases s.len() - k,
    {
        if s[k] == c {
            return Some(k);
        }
        k = k + 1;
    }
    None
}

/// The characters of `s` from `a` up to `b`.
pub fn slice(s: &Vec<char>, a: usize, b: usize) -> (r: Vec<char>)
    requires
        a <= b <= s.len(),
    ensures
        r@ == s@.subrange(a as int, b as int),
{
    let mut out: Vec<char> = Vec::new();
    let mut k = a;
    while k < b
        invariant
            a <= k <= b <= s.len(),
            out@ == s@.subrange(a as int, k as int),
        decreases b - k,
    {
        out.push(s[k]);
        k = k + 1;
        assert(out@ =~= s@.subrange(a as int, k as int));
    }
    out
}

/// Appends the characters of `t` to `out`.
pub fn push_all(out: &mut Vec<char>, t: &Vec<char>)
    ensures
        final(out)@ == old(out)@ + t@,
{
    let ghost start = out@;
    let mut k: usize = 0;
    while k < t.len()
        invariant
            k <= t.len(),
            out@ == start + t@.subrange(0, k as int),
        decreases t.len() - k,
    {
        out.push(t[k]);
        k = k + 1;
        assert(out@ =~= start + t@.subrange(0, k as int));
    }
    assert(t@.subrange(0, t@.len() as int) =~= t@);
}

/// `s` without leading blanks.
pub fn trim_start_chars(s: &Vec<char>) -> (r: Vec<char>)
    ensures
        r@ == trim_start(s@),
{
    let a = skip_ws(s, 0);
    slice(s, a, s.len())
}

/// `s` without leading or trailing blanks.
pub fn trim_chars(s: &Vec<char>) -> (r: Vec<char>)
    ensures
        r@ == trim(s@),
{
    let a = skip_ws(s, 0);
    let mut b = s.len();
    while b > 0 && is_ws_char(s[b - 1])
        invariant
            b <= s.len(),
            ws_start_back(s@, b as int) == ws_start_back(s@, s.len() as int),
        decreases b,
    {
        b = b - 1;
    }
    if a < b {
        slice(s, a, b)
    } else {
        Vec::new()
    }
}

/// Whether two character sequences are equal.
pub fn same(a: &Vec<char>, b: &Vec<char>) -> (r: bool)
    ensures
        r == (a@ == b@),
{
    if a.len() != b.len() {
        return false;
    }
    let r = at(a, 0, b);
    assert(a@.subrange(0, b@.len() as int) =~= a@);
    r
}

/// Position of the line break that ends the line starting at `i`, or the end of `s`.
pub open spec fn line_end(s: Seq<char>, i: int) -> int {
    match find_char_from(s, i, '\n') {
        Some(e) => e,
        None => s.len() as int,
    }
}

/// The line of `s` that starts at `i`: up to its line break, without a `\r` just before it.
pub open spec fn line_at(s: Seq<char>, i: int) -> Seq<char> {
    let e = line_end(s, i);
    let l = s.subrange(i, e);
    if e < s.len() && l.len() > 0 && l.last() == '\r' {
        l.drop_last()
    } else {
        l
    }
}

/// The lines of `s` from position `i` on, as `str::lines` yields them.
pub open spec fn lines_from(s: Seq<char>, i: int) -> Seq<Seq<char>>
    decreases s.len() - i,
{
    if i < 0 || i >= s.len() {
        Seq::empty()
    } else {
        let e = line_end(s, i);
        if e < i || e >= s.len() {
            seq![line_at(s, i)]
        } else {
            seq![line_at(s, i)] + lines_from(s, e + 1)
        }
    }
}

/// The lines of `s`: split at `\n`, a `\r` before it dropped, no empty line after a final break.
pub open spec fn lines_of(s: Seq<char>) -> Seq<Seq<char>> {
    lines_from(s, 0)
}

/// The lines of `s`, as `str::lines` yields them.
pub fn split_lines(s: &Vec<char>) -> (r: Vec<Vec<char>>)
    ensures
        r.deep_view() == lines_of(s@),
{
    let mut out: Vec<Vec<char>> = Vec::new();
    let mut i: usize = 0;
    while i < s.len()
        invariant
            i <= s.len(),
            out.deep_view() + lines_from(s@, i as int) == lines_of(s@),
        decreases s.len() - i,
    {
        let e = match find_char(s, i, '\n') {
            Some(e) => e,
            None => s.len(),
        };
        proof {
            lemma_find_char_from_bounds(s@, i as int, '\n');
        }
        let mut l = slice(s, i, e);
        if e < s.len() && l.len() > 0 && l[l.len() - 1] == '\r' {
            l.pop();
        }
        let ghost before = out.deep_view();
        let ghost before_v = out@;
        proof {
            assert(l@ =~= line_at(s@, i as int));
            assert(l.deep_view() =~= l@);
        }
        out.push(l);
        proof {
            assert(out@ == before_v.push(l));
            assert(out.deep_view() =~= before.push(line_at(s@, i as int)));
        }
        if e >= s.len() {
            proof {
                assert(lines_from(s@, i as int) == seq![line_at(s@, i as int)]);
                assert(before + lines_from(s@, i as int) =~= out.deep_view() + lines_from(
                    s@,
                    s.len() as int,
                ));
            }
            i = s.len();
        } else {
            proof {
                assert(lines_from(s@, i as int) == seq![line_at(s@, i as int)] + lines_from(
                    s@,
                    e + 1,
                ));
                assert(before + lines_from(s@, i as int) =~= out.deep_view() + lines_from(
                    s@,
                    e + 1,
                ));
            }
            i = e + 1;
        }
    }
    proof {
        assert(out.deep_view() + lines_from(s@, i as int) =~= out.deep_view());
    }
    out
}

/// The value of the first `key="..."` in `line`: what stands between that quote and the next.
pub open spec fn attr(line: Seq<char>, key: Seq<char>) -> Option<Seq<char>> {
    let pat = key + seq!['=', '"'];
    match find_from(line, 0, pat) {
        None => None,
        Some(i) => match find_char_from(line, i + pat.len(), '"') {
            None => None,
            Some(e) => Some(line.subrange(i + pat.len(), e)),
        },
    }
}

/// The value of the first `key="..."` in `line`.
pub fn extract_attr(line: &Vec<char>, key: &str) -> (r: Option<Vec<char>>)
    ensures
        r matches Some(v) ==> attr(line@, key@) == Some(v@),
        r is None ==> attr(line@, key@) is None,
{
    let mut pat = chars_of(key);
    pat.push('=');
    pat.push('"');
    proof {
        assert(pat@ =~= key@ + seq!['=', '"']);
    }
    match find(line, 0, &pat) {
        None => None,
        Some(i) => {
            proof {
                lemma_find_from_bounds(line@, 0, pat@);
                assert(has_at(line@, i as int, pat@));
                assert(i + pat@.len() <= line@.len());
                assert(i + pat.len() <= line.len());
            }
            let st = i + pat.len();
            match find_char(line, st, '"') {
                None => None,
                Some(e) => {
                    proof {
                        lemma_find_char_from_bounds(line@, st as int, '"');
                    }
                    Some(slice(line, st, e))
                },
            }
        },
    }
}

pub proof fn lemma_chars_deep_view(v: Vec<char>)
    ensures
        v.deep_view() == v@,
{
    assert(v.deep_view() =~= v@);
}

pub proof fn lemma_lines_deep_view(v: Vec<Vec<char>>, i: int)
    requires
        0 <= i < v.len(),
    ensures
        v.deep_view()[i] == v@[i]@,
{
    lemma_chars_deep_view(v@[i]);
}

/// Last position before `j` that holds `c`.
pub open spec fn last_index_before(s: Seq<char>, c: char, j: int) -> Option<int>
    decreases j,
{
    if j <= 0 || j > s.len() {
        None
    } else if s[j - 1] == c {
        Some(j - 1)
    } else {
        last_index_before(s, c, j - 1)
    }
}

/// The last component of a `/`-separated path.
pub open spec fn file_name(p: Seq<char>) -> Seq<char> {
    match last_index_before(p, '/', p.len() as int) {
        Some(i) => p.subrange(i + 1, p.len() as int),
        None => p,
    }
}

/// The extension of a path, as `Path::extension` gives it: what follows the last `.` of the
/// file name, unless that dot opens the name (or the name is `..`).
pub open spec fn extension(p: Seq<char>) -> Option<Seq<char>> {
    let n = file_name(p);
    match last_index_before(n, '.', n.len() as int) {
        Some(d) => if d > 0 && n != ".."@ {
            Some(n.subrange(d + 1, n.len() as int))
        } else {
            None
        },
        None => None,
    }
}

pub proof fn lemma_last_index_bounds(s: Seq<char>, c: char, j: int)
    requires
        0 <= j <= s.len(),
    ensures
        last_index_before(s, c, j) matches Some(i) ==> 0 <= i < j && s[i] == c,
    decreases j,
{
    if j > 0 && s[j - 1] != c {
        lemma_last_index_bounds(s, c, j - 1);
    }
}

/// Last position before `j` that holds `c`.
pub fn rfind_char(s: &Vec<char>, c: char, j: usize) -> (r: Option<usize>)
    requires
        j <= s.len(),
    ensures
        r matches Some(i) ==> last_index_before(s@, c, j as int) == Some(i as int) && i < j,
        r is None ==> last_index_before(s@, c, j as int) is None,
{
    let mut k = j;
    while k > 0
        invariant
            k <= j <= s.len(),
            last_index_before(s@, c, k as int) == last_index_before(s@, c, j as int),
        decreases k,
    {
        if s[k - 1] == c {
            return Some(k - 1);
        }
        k = k - 1;
    }
    None
}

/// The extension of a path.
pub fn path_extension(p: &Vec<char>) -> (r: Option<Vec<char>>)
    ensures
        r matches Some(e) ==> extension(p@) == Some(e@),
        r is None ==> extension(p@) is None,
{
    let name = match rfind_char(p, '/', p.len()) {
        Some(i) => slice(p, i + 1, p.len()),
        None => slice(p, 0, p.len()),
    };
    assert(p@.subrange(0, p@.len() as int) =~= p@);
    proof {
        reveal_strlit("..");
    }
    match rfind_char(&name, '.', name.len()) {
        Some(d) => {
            if d > 0 && !same(&name, &chars_of("..")) {
                Some(slice(&name, d + 1, name.len()))
            } else {
                None
            }
        },
        None => None,
    }
}

/// Whether the path has the extension `ext` (exactly).
pub fn has_extension(p: &Vec<char>, ext: &str) -> (r: bool)
    ensures
        r == (extension(p@) == Some(ext@)),
{
    match path_extension(p) {
        Some(e) => same(&e, &chars_of(ext)),
        None => false,
    }
}

} // verus!
