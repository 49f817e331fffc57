use vstd::prelude::*;
use crate::text::{
    at, chars_of, digits_end, find_char, find_char_from, has_at, is_word, is_word_char,
    lemma_find_char_from_bounds, skip_digits, skip_ws, slice, ws_end,
};

verus! {

broadcast use vstd::string::group_string_axioms;

/// The line shapes that the scanners look for, each matched at one position of a line.
#[derive(Clone, Copy, Debug, PartialEq, Eq, Structural)]
pub enum Pat {
    /// `id = 12`: the digits.
    Id,
    /// `path = "..."`: the quoted text (not empty).
    PathAttr,
    /// `script = ExtResource("12")`: the digits.
    ScriptExt,
    /// `name = ExtResource("12")`: the property name, then the digits.
    PropExt,
    /// `name = SubResource("12")` (quotes optional): the property name, then the digits.
    PropSub,
    /// `SubResource("12")` (quotes optional): the digits.
    AnySub,
    /// `preload("res://...")`: the path.
    Preload,
    /// `load("res://...")` not preceded by an identifier character: the path.
    Load,
    /// `script = "res://..."`: the path.
    ScriptPath,
    /// `preload` or `load`, not preceded by an identifier character, then
    /// `( "res://..." )` with blanks allowed around the parentheses: the word, then the path.
    GdRef,
}

/// What one match holds: where it starts and ends, and up to two captured pieces.
pub struct Cap {
    pub start: usize,
    pub end: usize,
    pub a: Vec<char>,
    pub b: Vec<char>,
}

pub struct CapV {
    pub start: int,
    pub end: int,
    pub a: Seq<char>,
    pub b: Seq<char>,
}

impl View for Cap {
    type V = CapV;

    open spec fn view(&self) -> CapV {
        CapV { start: self.start as int, end: self.end as int, a: self.a@, b: self.b@ }
    }
}

/// Blanks, `=`, blanks, starting at `j`: where they end.
pub open spec fn eq_end(s: Seq<char>, j: int) -> Option<int> {
    let a = ws_end(s, j);
    if 0 <= a < s.len() && s[a] == '=' {
        Some(ws_end(s, a + 1))
    } else {
        None
    }
}

/// End of the run of identifier characters that starts at `i`.
pub open spec fn word_end(s: Seq<char>, i: int) -> int
    decreases s.len() - i,
{
    if 0 <= i < s.len() && is_word(s[i]) {
        word_end(s, i + 1)
    } else {
        i
    }
}

/// `i` is not preceded by an identifier character.
pub open spec fn word_boundary_before(s: Seq<char>, i: int) -> bool {
    i == 0 || !is_word(s[i - 1])
}

/// `ExtResource("<digits>")` at `k`: the digits and the end.
pub open spec fn ext_ref_tail(s: Seq<char>, k: int) -> Option<(Seq<char>, int)> {
    let lit = "ExtResource(\""@;
    if has_at(s, k, lit) {
        let m = k + lit.len();
        let d = digits_end(s, m);
        if d > m && has_at(s, d, "\")"@) {
            Some((s.subrange(m, d), d + 2))
        } else {
            None
        }
    } else {
        None
    }
}

/// `SubResource(<digits>)` at `k`, each quote around the digits optional: the digits and the end.
pub open spec fn sub_ref_tail(s: Seq<char>, k: int) -> Option<(Seq<char>, int)> {
    let lit = "SubResource("@;
    if has_at(s, k, lit) {
        let m = k + lit.len();
        let m2 = if m < s.len() && s[m] == '"' { m + 1 } else { m };
        let d = digits_end(s, m2);
        let d2 = if d < s.len() && s[d] == '"' { d + 1 } else { d };
        if d > m2 && d2 < s.len() && s[d2] == ')' {
            Some((s.subrange(m2, d), d2 + 1))
        } else {
            None
        }
    } else {
        None
    }
}

/// `"res://<text>"` at `k`, the text without quotes and not empty: the path and its closing quote.
pub open spec fn res_string(s: Seq<char>, k: int) -> Option<(Seq<char>, int)> {
    if 0 <= k < s.len() && s[k] == '"' && has_at(s, k + 1, "res://"@) {
        match find_char_from(s, k + 7, '"') {
            Some(q) => if q > k + 7 {
                Some((s.subrange(k + 1, q), q))
            } else {
                None
            },
            None => None,
        }
    } else {
        None
    }
}

/// The match of `p` that starts at `i`, if any.
pub open spec fn pat_at(p: Pat, s: Seq<char>, i: int) -> Option<CapV> {
    match p {
        Pat::Id => if has_at(s, i, "id"@) {
            match eq_end(s, i + 2) {
                Some(k) => {
                    let d = digits_end(s, k);
                    if d > k {
                        Some(CapV { start: i, end: d, a: s.subrange(k, d), b: Seq::empty() })
                    } else {
                        None
                    }
                },
                None => None,
            }
        } else {
            None
        },
        Pat::PathAttr => if has_at(s, i, "path"@) {
            match eq_end(s, i + 4) {
                Some(k) => if 0 <= k < s.len() && s[k] == '"' {
                    match find_char_from(s, k + 1, '"') {
                        Some(q) => if q > k + 1 {
                            Some(
                                CapV {
                                    start: i,
                                    end: q + 1,
                                    a: s.subrange(k + 1, q),
                                    b: Seq::empty(),
                                },
                            )
                        } else {
                            None
                        },
                        None => None,
                    }
                } else {
                    None
                },
                None => None,
            }
        } else {
            None
        },
        Pat::ScriptExt => if has_at(s, i, "script"@) {
            match eq_end(s, i + 6) {
                Some(k) => match ext_ref_tail(s, k) {
                    Some(t) => Some(CapV { start: i, end: t.1, a: t.0, b: Seq::empty() }),
                    None => None,
                },
                None => None,
            }
        } else {
            None
        },
        Pat::PropExt => {
            let w = word_end(s, i);
            if 0 <= i && w > i {
                match eq_end(s, w) {
                    Some(k) => match ext_ref_tail(s, k) {
                        Some(t) => Some(
                            CapV { start: i, end: t.1, a: s.subrange(i, w), b: t.0 },
                        ),
                        None => None,
                    },
                    None => None,
                }
            } else {
                None
            }
        },
        Pat::PropSub => {
            let w = word_end(s, i);
            if 0 <= i && w > i {
                match eq_end(s, w) {
                    Some(k) => match sub_ref_tail(s, k) {
                        Some(t) => Some(
                            CapV { start: i, end: t.1, a: s.subrange(i, w), b: t.0 },
                        ),
                        None => None,
                    },
                    None => None,
                }
            } else {
                None
            }
        },
        Pat::AnySub => match sub_ref_tail(s, i) {
            Some(t) => Some(CapV { start: i, end: t.1, a: t.0, b: Seq::empty() }),
            None => None,
        },
        Pat::Preload => if has_at(s, i, "preload("@) {
            match res_string(s, i + 8) {
                Some(t) => if has_at(s, t.1, "\")"@) {
                    Some(CapV { start: i, end: t.1 + 2, a: t.0, b: Seq::empty() })
                } else {
                    None
                },
                None => None,
            }
        } else {
            None
        },
        Pat::Load => if word_boundary_before(s, i) && has_at(s, i, "load("@) {
            match res_string(s, i + 5) {
                Some(t) => if has_at(s, t.1, "\")"@) {
                    Some(CapV { start: i, end: t.1 + 2, a: t.0, b: Seq::empty() })
                } else {
                    None
                },
                None => None,
            }
        } else {
            None
        },
        Pat::ScriptPath => if has_at(s, i, "script"@) {
            match eq_end(s, i + 6) {
                Some(k) => match res_string(s, k) {
                    Some(t) => Some(CapV { start: i, end: t.1 + 1, a: t.0, b: Seq::empty() }),
                    None => None,
                },
                None => None,
            }
        } else {
            None
        },
        Pat::GdRef => {
            let kw: int = if has_at(s, i, "preload"@) {
                7
            } else if has_at(s, i, "load"@) {
                4
            } else {
                0
            };
            if kw > 0 && word_boundary_before(s, i) {
                let j = ws_end(s, i + kw);
                if j < s.len() && s[j] == '(' {
                    match res_string(s, ws_end(s, j + 1)) {
                        Some(t) => {
                            let e = ws_end(s, t.1 + 1);
                            if e < s.len() && s[e] == ')' {
                                Some(CapV { start: i, end: e + 1, a: s.subrange(i, i + kw), b: t.0 })
                            } else {
                                None
                            }
                        },
                        None => None,
                    }
                } else {
                    None
                }
            } else {
                None
            }
        },
    }
}

/// The leftmost match of `p` that starts at or after `i`.
pub open spec fn first_match(p: Pat, s: Seq<char>, i: int) -> Option<CapV>
    decreases s.len() + 1 - i,
{
    if i < 0 || i > s.len() {
        None
    } else {
        match pat_at(p, s, i) {
            Some(c) => Some(c),
            None => first_match(p, s, i + 1),
        }
    }
}

pub open spec fn opt_cap(o: Option<Cap>) -> Option<CapV> {
    match o {
        Some(c) => Some(c@),
        None => None,
    }
}

pub proof fn lemma_word_end_bounds(s: Seq<char>, i: int)
    requires
        0 <= i <= s.len(),
    ensures
        i <= word_end(s, i) <= s.len(),
    decreases s.len() - i,
{
    if i < s.len() && is_word(s[i]) {
        lemma_word_end_bounds(s, i + 1);
    }
}

fn eq_end_exec(s: &Vec<char>, j: usize) -> (r: Option<usize>)
    requires
        j <= s.len(),
    ensures
        r matches Some(k) ==> eq_end(s@, j as int) == Some(k as int) && j < k <= s.len(),
        r is None ==> eq_end(s@, j as int) is None,
{
    let a = skip_ws(s, j);
    if a < s.len() && s[a] == '=' {
        let k = skip_ws(s, a + 1);
        Some(k)
    } else {
        None
    }
}

/// End of the run of identifier characters that starts at `i`.
pub fn word_end_exec(s: &Vec<char>, i: usize) -> (r: usize)
    requires
        i <= s.len(),
    ensures
        r == word_end(s@, i as int),
        i <= r <= s.len(),
{
    let mut k = i;
    while k < s.len() && is_word_char(s[k])
        invariant
            i <= k <= s.len(),
            word_end(s@, k as int) == word_end(s@, i as int),
        decreases s.len() - k,
    {
        k = k + 1;
    }
    k
}

fn ext_ref_tail_exec(s: &Vec<char>, k: usize) -> (r: Option<(Vec<char>, usize)>)
    requires
        k <= s.len(),
    ensures
        r matches Some(t) ==> ext_ref_tail(s@, k as int) == Some((t.0@, t.1 as int)) && k < t.1
            <= s.len(),
        r is None ==> ext_ref_tail(s@, k as int) is None,
{
    proof {
        reveal_strlit("ExtResource(\"");
        reveal_strlit("\")");
    }
    let lit = chars_of("ExtResource(\"");
    if !at(s, k, &lit) {
        return None;
    }
    let m = k + lit.len();
    let d = skip_digits(s, m);
    let close = chars_of("\")");
    if d > m && at(s, d, &close) {
        Some((slice(s, m, d), d + 2))
    } else {
        None
    }
}

fn sub_ref_tail_exec(s: &Vec<char>, k: usize) -> (r: Option<(Vec<char>, usize)>)
    requires
        k <= s.len(),
    ensures
        r matches Some(t) ==> sub_ref_tail(s@, k as int) == Some((t.0@, t.1 as int)) && k < t.1
            <= s.len(),
        r is None ==> sub_ref_tail(s@, k as int) is None,
{
    proof {
        reveal_strlit("SubResource(");
    }
    let lit = chars_of("SubResource(");
    if !at(s, k, &lit) {
        return None;
    }
    let m = k + lit.len();
    let m2 = if m < s.len() && s[m] == '"' {
        m + 1
    } else {
        m
    };
    let d = skip_digits(s, m2);
    let d2 = if d < s.len() && s[d] == '"' {
        d + 1
    } else {
        d
    };
    if d > m2 && d2 < s.len() && s[d2] == ')' {
        Some((slice(s, m2, d), d2 + 1))
    } else {
        None
    }
}

fn res_string_exec(s: &Vec<char>, k: usize) -> (r: Option<(Vec<char>, usize)>)
    requires
        k <= s.len(),
    ensures
        r matches Some(t) ==> res_string(s@, k as int) == Some((t.0@, t.1 as int)) && k < t.1
            < s.len(),
        r is None ==> res_string(s@, k as int) is None,
{
    proof {
        reveal_strlit("res://");
    }
    let scheme = chars_of("res://");
    if k < s.len() && s[k] == '"' && at(s, k + 1, &scheme) {
        match find_char(s, k + 7, '"') {
            Some(q) => {
                proof {
                    lemma_find_char_from_bounds(s@, k + 7, '"');
                }
                if q > k + 7 {
                    Some((slice(s, k + 1, q), q))
                } else {
                    None
                }
            },
            None => None,
        }
    } else {
        None
    }
}

fn at_id(s: &Vec<char>, i: usize) -> (r: Option<Cap>)
    requires
        i <= s.len(),
    ensures
        opt_cap(r) == pat_at(Pat::Id, s@, i as int),
        r matches Some(c) ==> c.start == i && i < c.end <= s.len(),
{
    proof {
        reveal_strlit("id");
    }
    if !at(s, i, &chars_of("id")) {
        return None;
    }
    match eq_end_exec(s, i + 2) {
        Some(k) => {
            let d = skip_digits(s, k);
            if d > k {
                Some(Cap { start: i, end: d, a: slice(s, k, d), b: Vec::new() })
            } else {
                None
            }
        },
        None => None,
    }
}


fn at_path_attr(s: &Vec<char>, i: usize) -> (r: Option<Cap>)
    requires
        i <= s.len(),
    ensures
        opt_cap(r) == pat_at(Pat::PathAttr, s@, i as int),
        r matches Some(c) ==> c.start == i && i < c.end <= s.len(),
{
    proof {
        reveal_strlit("path");
    }
    if !at(s, i, &chars_of("path")) {
        return None;
    }
    match eq_end_exec(s, i + 4) {
        Some(k) => {
            if k < s.len() && s[k] == '"' {
                match find_char(s, k + 1, '"') {
                    Some(q) => {
                        proof {
                            lemma_find_char_from_bounds(s@, k + 1, '"');
                        }
                        if q > k + 1 {
                            Some(
                                Cap {
                                    start: i,
                                    end: q + 1,
                                    a: slice(s, k + 1, q),
                                    b: Vec::new(),
                                },
                            )
                        } else {
                            None
                        }
                    },
                    None => None,
                }
            } else {
                None
            }
        },
        None => None,
    }
}


fn at_script_ext(s: &Vec<char>, i: usize) -> (r: Option<Cap>)
    requires
        i <= s.len(),
    ensures
        opt_cap(r) == pat_at(Pat::ScriptExt, s@, i as int),
        r matches Some(c) ==> c.start == i && i < c.end <= s.len(),
{
    proof {
        reveal_strlit("script");
    }
    if !at(s, i, &chars_of("script")) {
        return None;
    }
    match eq_end_exec(s, i + 6) {
        Some(k) => match ext_ref_tail_exec(s, k) {
            Some(t) => Some(Cap { start: i, end: t.1, a: t.0, b: Vec::new() }),
            None => None,
        },
        None => None,
    }
}


fn at_prop_ext(s: &Vec<char>, i: usize) -> (r: Option<Cap>)
    requires
        i <= s.len(),
    ensures
        opt_cap(r) == pat_at(Pat::PropExt, s@, i as int),
        r matches Some(c) ==> c.start == i && i < c.end <= s.len(),
{
    let w = word_end_exec(s, i);
    if w > i {
        match eq_end_exec(s, w) {
            Some(k) => match ext_ref_tail_exec(s, k) {
                Some(t) => Some(Cap { start: i, end: t.1, a: slice(s, i, w), b: t.0 }),
                None => None,
            },
            None => None,
        }
    } else {
        None
    }
}


fn at_prop_sub(s: &Vec<char>, i: usize) -> (r: Option<Cap>)
    requires
        i <= s.len(),
    ensures
        opt_cap(r) == pat_at(Pat::PropSub, s@, i as int),
        r matches Some(c) ==> c.start == i && i < c.end <= s.len(),
{
    let w = word_end_exec(s, i);
    if w > i {
        match eq_end_exec(s, w) {
            Some(k) => match sub_ref_tail_exec(s, k) {
                Some(t) => Some(Cap { start: i, end: t.1, a: slice(s, i, w), b: t.0 }),
                None => None,
            },
            None => None,
        }
    } else {
        None
    }
}


fn at_any_sub(s: &Vec<char>, i: usize) -> (r: Option<Cap>)
    requires
        i <= s.len(),
    ensures
        opt_cap(r) == pat_at(Pat::AnySub, s@, i as int),
        r matches Some(c) ==> c.start == i && i < c.end <= s.len(),
{
    match sub_ref_tail_exec(s, i) {
    Some(t) => Some(Cap { start: i, end: t.1, a: t.0, b: Vec::new() }),
    None => None,
    }
}


fn at_preload(s: &Vec<char>, i: usize) -> (r: Option<Cap>)
    requires
        i <= s.len(),
    ensures
        opt_cap(r) == pat_at(Pat::Preload, s@, i as int),
        r matches Some(c) ==> c.start == i && i < c.end <= s.len(),
{
    proof {
        reveal_strlit("preload(");
        reveal_strlit("\")");
    }
    if !at(s, i, &chars_of("preload(")) {
        return None;
    }
    match res_string_exec(s, i + 8) {
        Some(t) => {
            if at(s, t.1, &chars_of("\")")) {
                Some(Cap { start: i, end: t.1 + 2, a: t.0, b: Vec::new() })
            } else {
                None
            }
        },
        None => None,
    }
}


fn at_load(s: &Vec<char>, i: usize) -> (r: Option<Cap>)
    requires
        i <= s.len(),
    ensures
        opt_cap(r) == pat_at(Pat::Load, s@, i as int),
        r matches Some(c) ==> c.start == i && i < c.end <= s.len(),
{
    proof {
        reveal_strlit("load(");
        reveal_strlit("\")");
    }
    if !((i == 0 || !is_word_char(s[i - 1])) && at(s, i, &chars_of("load("))) {
        return None;
    }
    match res_string_exec(s, i + 5) {
        Some(t) => {
            if at(s, t.1, &chars_of("\")")) {
                Some(Cap { start: i, end: t.1 + 2, a: t.0, b: Vec::new() })
            } else {
                None
            }
        },
        None => None,
    }
}


fn at_script_path(s: &Vec<char>, i: usize) -> (r: Option<Cap>)
    requires
        i <= s.len(),
    ensures
        opt_cap(r) == pat_at(Pat::ScriptPath, s@, i as int),
        r matches Some(c) ==> c.start == i && i < c.end <= s.len(),
{
    proof {
        reveal_strlit("script");
    }
    if !at(s, i, &chars_of("script")) {
        return None;
    }
    match eq_end_exec(s, i + 6) {
        Some(k) => match res_string_exec(s, k) {
            Some(t) => Some(Cap { start: i, end: t.1 + 1, a: t.0, b: Vec::new() }),
            None => None,
        },
        None => None,
    }
}


#[verifier::rlimit(30)]
fn at_gd_ref(s: &Vec<char>, i: usize) -> (r: Option<Cap>)
    requires
        i <= s.len(),
    ensures
        opt_cap(r) == pat_at(Pat::GdRef, s@, i as int),
        r matches Some(c) ==> c.start == i && i < c.end <= s.len(),
{
    proof {
        reveal_strlit("preload");
        reveal_strlit("load");
    }
    let kw: usize = if at(s, i, &chars_of("preload")) {
        7
    } else if at(s, i, &chars_of("load")) {
        4
    } else {
        0
    };
    if kw == 0 || !(i == 0 || !is_word_char(s[i - 1])) {
        return None;
    }
    let j = skip_ws(s, i + kw);
    if j < s.len() && s[j] == '(' {
        let k = skip_ws(s, j + 1);
        match res_string_exec(s, k) {
            Some(t) => {
                let e = skip_ws(s, t.1 + 1);
                if e < s.len() && s[e] == ')' {
                    Some(Cap { start: i, end: e + 1, a: slice(s, i, i + kw), b: t.0 })
                } else {
                    None
                }
            },
            None => None,
        }
    } else {
        None
    }
}


/// The match of `p` that starts at `i`, if any.
pub fn match_at(p: Pat, s: &Vec<char>, i: usize) -> (r: Option<Cap>)
    requires
        i <= s.len(),
    ensures
        opt_cap(r) == pat_at(p, s@, i as int),
        r matches Some(c) ==> c.start == i && i < c.end <= s.len(),
{
    match p {
        Pat::Id => at_id(s, i),
        Pat::PathAttr => at_path_attr(s, i),
        Pat::ScriptExt => at_script_ext(s, i),
        Pat::PropExt => at_prop_ext(s, i),
        Pat::PropSub => at_prop_sub(s, i),
        Pat::AnySub => at_any_sub(s, i),
        Pat::Preload => at_preload(s, i),
        Pat::Load => at_load(s, i),
        Pat::ScriptPath => at_script_path(s, i),
        Pat::GdRef => at_gd_ref(s, i),
    }
}

/// The leftmost match of `p` that starts at or after `i`.
pub fn first_match_from(p: Pat, s: &Vec<char>, i: usize) -> (r: Option<Cap>)
    requires
        i <= s.len(),
    ensures
        opt_cap(r) == first_match(p, s@, i as int),
        r matches Some(c) ==> i <= c.start < c.end <= s.len(),
{
    let mut k = i;
    while k <= s.len()
        invariant
            i <= k,
            k <= s.len() + 1,
            first_match(p, s@, k as int) == first_match(p, s@, i as int),
        decreases s.len() + 1 - k,
    {
        match match_at(p, s, k) {
            Some(c) => {
                return Some(c);
            },
            None => {},
        }
        if k == s.len() {
            assert(first_match(p, s@, k + 1) is None);
            return None;
        }
        k = k + 1;
    }
    None
}

/// All matches of `p` from `i` on, each search resuming where the last match ended.
pub open spec fn all_matches(p: Pat, s: Seq<char>, i: int) -> Seq<CapV>
    decreases s.len() + 1 - i,
{
    match first_match(p, s, i) {
        Some(c) => if i < c.end <= s.len() {
            seq![c] + all_matches(p, s, c.end)
        } else {
            seq![c]
        },
        None => Seq::empty(),
    }
}

/// All matches of `p` in `s`, left to right, as the search that resumes after each one finds them.
#[verifier::rlimit(30)]
pub fn matches_from(p: Pat, s: &Vec<char>, i: usize) -> (r: Vec<Cap>)
    requires
        i <= s.len(),
    ensures
        r@.map_values(|c: Cap| c@) == all_matches(p, s@, i as int),
        forall|j: int|
            0 <= j < r.len() ==> i <= #[trigger] r@[j].start < r@[j].end <= s.len(),
        forall|j: int| 0 < j < r.len() ==> r@[j - 1].end <= #[trigger] r@[j].start,
{
    let mut out: Vec<Cap> = Vec::new();
    let mut k = i;
    loop
        invariant
            i <= k <= s.len(),
            forall|j: int|
                0 <= j < out.len() ==> i <= #[trigger] out@[j].start < out@[j].end <= k,
            forall|j: int| 0 < j < out.len() ==> out@[j - 1].end <= #[trigger] out@[j].start,
            out.len() > 0 ==> out@[out.len() - 1].end == k,
            out@.map_values(|c: Cap| c@) + all_matches(p, s@, k as int) == all_matches(
                p,
                s@,
                i as int,
            ),
        decreases s.len() + 1 - k,
    {
        match first_match_from(p, s, k) {
            None => {
                assert(out@.map_values(|c: Cap| c@) + all_matches(p, s@, k as int) =~= out@.map_values(
                    |c: Cap| c@,
                ));
                return out;
            },
            Some(c) => {
                let e = c.end;
                let ghost cv = c@;
                let ghost old_out = out@;
                let ghost before = out@.map_values(|c: Cap| c@);
                out.push(c);
                assert(out@.map_values(|c: Cap| c@) =~= before.push(cv));
                assert forall|j: int| 0 < j < out.len() implies out@[j - 1].end <= #[trigger] out@[j].start by {
                    if j < out.len() - 1 {
                        assert(old_out[j - 1] == out@[j - 1]);
                        assert(old_out[j] == out@[j]);
                    }
                }
                assert(before + all_matches(p, s@, k as int) =~= out@.map_values(|c: Cap| c@)
                    + all_matches(p, s@, e as int));
                k = e;
            },
        }
    }
}

} // verus!
