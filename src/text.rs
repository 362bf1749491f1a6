//! Character-sequence helpers used to build and inspect netlist names.
use vstd::prelude::*;

verus! {

/// `needle` occurs in `hay` starting at position `i`.
pub open spec fn occurs_at(hay: Seq<char>, needle: Seq<char>, i: int) -> bool {
    0 <= i && i + needle.len() <= hay.len() && hay.subrange(i, i + needle.len()) == needle
}

/// `needle` occurs somewhere in `hay`.
pub open spec fn seq_contains(hay: Seq<char>, needle: Seq<char>) -> bool {
    exists|i: int| occurs_at(hay, needle, i)
}

/// `hay` ends with `suffix`.
pub open spec fn seq_ends_with(hay: Seq<char>, suffix: Seq<char>) -> bool {
    suffix.len() <= hay.len() && hay.subrange(hay.len() - suffix.len(), hay.len() as int) == suffix
}

/// The decimal digit character of `d`.
pub open spec fn digit_char(d: nat) -> char {
    if d == 0 { '0' }
    else if d == 1 { '1' }
    else if d == 2 { '2' }
    else if d == 3 { '3' }
    else if d == 4 { '4' }
    else if d == 5 { '5' }
    else if d == 6 { '6' }
    else if d == 7 { '7' }
    else if d == 8 { '8' }
    else { '9' }
}

/// The decimal notation of `n`, without leading zeros.
pub open spec fn decimal(n: nat) -> Seq<char>
    decreases n,
{
    if n < 10 {
        seq![digit_char(n)]
    } else {
        decimal(n / 10).push(digit_char(n % 10))
    }
}

/// `a` followed by `b`.
pub fn concat(a: &str, b: &str) -> (r: String)
    ensures
        r@ == a@ + b@,
{
    let s = String::from_str(a);
    s.concat(b)
}

/// `a`, `b` and `c` one after the other.
pub fn concat3(a: &str, b: &str, c: &str) -> (r: String)
    ensures
        r@ == a@ + b@ + c@,
{
    let s = String::from_str(a);
    let s = s.concat(b);
    s.concat(c)
}

/// Whether the two strings hold the same characters.
pub fn str_eq(a: &str, b: &str) -> (r: bool)
    ensures
        r == (a@ == b@),
{
    let x = String::from_str(a);
    let y = String::from_str(b);
    x == y
}

/// Whether `hay` holds `needle` at position `i`.
pub fn matches_at(hay: &str, needle: &str, i: usize) -> (r: bool)
    ensures
        r == occurs_at(hay@, needle@, i as int),
{
    let hl = hay.unicode_len();
    let nl = needle.unicode_len();
    if i > hl || nl > hl - i {
        return false;
    }
    let mut k: usize = 0;
    while k < nl
        invariant
            hl == hay@.len(),
            nl == needle@.len(),
            i + nl <= hl,
            k <= nl,
            forall|j: int| 0 <= j < k ==> hay@[i + j] == needle@[j],
        decreases nl - k,
    {
        if hay.get_char(i + k) != needle.get_char(k) {
            assert(hay@.subrange(i as int, i + nl)[k as int] != needle@[k as int]);
            return false;
        }
        k = k + 1;
    }
    assert(hay@.subrange(i as int, i + nl) =~= needle@);
    true
}

/// Whether `needle` occurs anywhere in `hay`.
pub fn contains(hay: &str, needle: &str) -> (r: bool)
    ensures
        r == seq_contains(hay@, needle@),
{
    let hl = hay.unicode_len();
    let mut i: usize = 0;
    while i < hl
        invariant
            hl == hay@.len(),
            i <= hl,
            forall|j: int| 0 <= j < i ==> !occurs_at(hay@, needle@, j),
        decreases hl - i,
    {
        if matches_at(hay, needle, i) {
            return true;
        }
        i = i + 1;
    }
    matches_at(hay, needle, hl)
}

/// Whether `hay` ends with `suffix`.
pub fn ends_with(hay: &str, suffix: &str) -> (r: bool)
    ensures
        r == seq_ends_with(hay@, suffix@),
{
    let hl = hay.unicode_len();
    let sl = suffix.unicode_len();
    if sl > hl {
        return false;
    }
    matches_at(hay, suffix, hl - sl)
}

/// Whether `c` occurs in `s`.
pub fn contains_char(s: &str, c: char) -> (r: bool)
    ensures
        r == s@.contains(c),
{
    let n = s.unicode_len();
    let mut i: usize = 0;
    while i < n
        invariant
            n == s@.len(),
            i <= n,
            forall|j: int| 0 <= j < i ==> s@[j] != c,
        decreases n - i,
    {
        if s.get_char(i) == c {
            return true;
        }
        i = i + 1;
    }
    false
}

/// The first position at or after `from` where `c` stands in `s`.
pub fn find_char(s: &str, c: char, from: usize) -> (r: Option<usize>)
    ensures
        match r {
            Some(k) => from <= k < s@.len() && s@[k as int] == c
                && forall|j: int| from <= j < k ==> s@[j] != c,
            None => forall|j: int| from <= j < s@.len() ==> s@[j] != c,
        },
{
    let n = s.unicode_len();
    let mut i: usize = from;
    while i < n
        invariant
            n == s@.len(),
            from <= i,
            forall|j: int| from <= j < i ==> s@[j] != c,
        decreases n - i,
    {
        if s.get_char(i) == c {
            return Some(i);
        }
        i = i + 1;
    }
    None
}

/// The characters of `s` from `from` up to `to`.
pub fn slice(s: &str, from: usize, to: usize) -> (r: String)
    requires
        from <= to <= s@.len(),
    ensures
        r@ == s@.subrange(from as int, to as int),
{
    String::from_str(s.substring_char(from, to))
}

fn digit_str(d: usize) -> (r: &'static str)
    requires
        d < 10,
    ensures
        r@ == seq![digit_char(d as nat)],
{
    proof {
        reveal_strlit("0");
        reveal_strlit("1");
        reveal_strlit("2");
        reveal_strlit("3");
        reveal_strlit("4");
        reveal_strlit("5");
        reveal_strlit("6");
        reveal_strlit("7");
        reveal_strlit("8");
        reveal_strlit("9");
    }
    if d == 0 { "0" }
    else if d == 1 { "1" }
    else if d == 2 { "2" }
    else if d == 3 { "3" }
    else if d == 4 { "4" }
    else if d == 5 { "5" }
    else if d == 6 { "6" }
    else if d == 7 { "7" }
    else if d == 8 { "8" }
    else { "9" }
}

/// The decimal notation of `n`.
pub fn to_decimal(n: usize) -> (r: String)
    ensures
        r@ == decimal(n as nat),
    decreases n,
{
    if n < 10 {
        String::from_str(digit_str(n))
    } else {
        let head = to_decimal(n / 10);
        let r = head.concat(digit_str(n % 10));
        assert(r@ =~= decimal(n as nat));
        r
    }
}

/// `s` without its leading spaces.
pub open spec fn strip_front(s: Seq<char>) -> Seq<char>
    decreases s.len(),
{
    if s.len() > 0 && s[0] == ' ' {
        strip_front(s.subrange(1, s.len() as int))
    } else {
        s
    }
}

/// `s` without its trailing spaces.
pub open spec fn strip_back(s: Seq<char>) -> Seq<char>
    decreases s.len(),
{
    if s.len() > 0 && s.last() == ' ' {
        strip_back(s.drop_last())
    } else {
        s
    }
}

/// `s` without its leading and trailing spaces.
pub open spec fn trim(s: Seq<char>) -> Seq<char> {
    strip_back(strip_front(s))
}

/// `s` without its leading and trailing spaces.
pub fn trim_spaces(s: &str) -> (r: String)
    ensures
        r@ == trim(s@),
{
    let n = s.unicode_len();
    let mut a: usize = 0;
    assert(s@.subrange(0, n as int) =~= s@);
    while a < n && s.get_char(a) == ' '
        invariant
            n == s@.len(),
            a <= n,
            strip_front(s@) == strip_front(s@.subrange(a as int, n as int)),
        decreases n - a,
    {
        assert(s@.subrange(a as int, n as int).subrange(1, n - a) =~= s@.subrange(a + 1, n as int));
        a = a + 1;
    }
    let ghost t = s@.subrange(a as int, n as int);
    assert(strip_front(s@) == t);
    let mut b: usize = n;
    while b > a && s.get_char(b - 1) == ' '
        invariant
            n == s@.len(),
            a <= b <= n,
            t == s@.subrange(a as int, n as int),
            strip_back(t) == strip_back(s@.subrange(a as int, b as int)),
        decreases b - a,
    {
        assert(s@.subrange(a as int, b as int).drop_last() =~= s@.subrange(a as int, b - 1));
        b = b - 1;
    }
    slice(s, a, b)
}

/// The position of the first `=` in `a`, where there is one.
pub open spec fn is_first_eq(a: Seq<char>, e: int) -> bool {
    0 <= e < a.len() && a[e] == '=' && forall|j: int| 0 <= j < e ==> a[j] != '='
}

/// The two sides of the assign text `a`: what stands before its first `=` and what stands
/// after it, both trimmed.
pub open spec fn assign_sides(a: Seq<char>) -> Option<(Seq<char>, Seq<char>)> {
    if a.contains('=') {
        let e = choose|e: int| is_first_eq(a, e);
        Some((trim(a.subrange(0, e)), trim(a.subrange(e + 1, a.len() as int))))
    } else {
        None
    }
}

/// Splits the assign text `a` into its two sides.
pub fn split_assign(a: &str) -> (r: Option<(String, String)>)
    ensures
        match r {
            Some((l, rr)) => assign_sides(a@) == Some((l@, rr@)),
            None => assign_sides(a@) is None,
        },
{
    let n = a.unicode_len();
    match find_char(a, '=', 0) {
        Some(e) => {
            proof {
                assert(a@.contains('=')) by {
                    assert(a@[e as int] == '=');
                }
                let k = choose|k: int| is_first_eq(a@, k);
                assert(is_first_eq(a@, e as int));
                assert(is_first_eq(a@, k));
                assert(k == e);
            }
            let l = slice(a, 0, e);
            let rr = slice(a, e + 1, n);
            Some((trim_spaces(l.as_str()), trim_spaces(rr.as_str())))
        },
        None => {
            proof {
                assert(!a@.contains('=')) by {
                    assert forall|j: int| 0 <= j < a@.len() implies a@[j] != '=' by {}
                }
            }
            None
        },
    }
}

/// The decimal notation holds digits only, at least one.
pub proof fn lemma_decimal_digits(n: nat)
    ensures
        decimal(n).len() >= 1,
        forall|j: int| 0 <= j < decimal(n).len() ==> '0' <= #[trigger] decimal(n)[j] <= '9',
        n >= 10 ==> decimal(n).len() >= 2,
    decreases n,
{
    if n >= 10 {
        lemma_decimal_digits(n / 10);
    }
}

/// Different digits have different characters.
pub proof fn lemma_digit_char_injective(a: nat, b: nat)
    requires
        a < 10,
        b < 10,
        digit_char(a) == digit_char(b),
    ensures
        a == b,
{
}

/// Different numbers have different decimal notations.
pub proof fn lemma_decimal_injective(a: nat, b: nat)
    requires
        decimal(a) == decimal(b),
    ensures
        a == b,
    decreases a,
{
    lemma_decimal_digits(a);
    lemma_decimal_digits(b);
    if a < 10 && b < 10 {
        assert(decimal(a) == seq![digit_char(a)]);
        assert(decimal(b) == seq![digit_char(b)]);
        assert(seq![digit_char(a)][0] == digit_char(a));
        assert(seq![digit_char(b)][0] == digit_char(b));
        assert(digit_char(a) == digit_char(b));
        lemma_digit_char_injective(a, b);
    } else if a >= 10 && b >= 10 {
        let da = decimal(a);
        assert(da.last() == digit_char(a % 10));
        assert(decimal(b).last() == digit_char(b % 10));
        lemma_digit_char_injective(a % 10, b % 10);
        assert(decimal(a / 10) =~= da.drop_last());
        assert(decimal(b / 10) =~= decimal(b).drop_last());
        lemma_decimal_injective(a / 10, b / 10);
        assert(a == 10 * (a / 10) + a % 10);
        assert(b == 10 * (b / 10) + b % 10);
    }
}

/// Two strings that put different decimal numbers between the same prefix and an
/// underscore-led suffix differ.
pub proof fn lemma_numbered_distinct(p: Seq<char>, a: nat, b: nat, s: Seq<char>, t: Seq<char>)
    requires
        a != b,
        s.len() > 0 && s[0] == '_',
        t.len() > 0 && t[0] == '_',
    ensures
        p + decimal(a) + s != p + decimal(b) + t,
{
    lemma_decimal_digits(a);
    lemma_decimal_digits(b);
    let x = p + decimal(a) + s;
    let y = p + decimal(b) + t;
    if x == y {
        let la = decimal(a).len();
        let lb = decimal(b).len();
        if la < lb {
            assert(x[(p.len() + la) as int] == '_');
            assert(y[(p.len() + la) as int] == decimal(b)[la as int]);
        } else if lb < la {
            assert(y[(p.len() + lb) as int] == '_');
            assert(x[(p.len() + lb) as int] == decimal(a)[lb as int]);
        } else {
            assert forall|j: int| 0 <= j < la implies decimal(a)[j] == decimal(b)[j] by {
                assert(x[p.len() + j] == y[p.len() + j]);
            }
            assert(decimal(a) =~= decimal(b));
            lemma_decimal_injective(a, b);
        }
    }
}


/// `a` comes strictly before `b` in lexicographic order of character codes.
pub open spec fn name_lt(a: Seq<char>, b: Seq<char>) -> bool
    decreases a.len(),
{
    if a.len() == 0 {
        b.len() > 0
    } else if b.len() == 0 {
        false
    } else if a[0] != b[0] {
        a[0] < b[0]
    } else {
        name_lt(a.subrange(1, a.len() as int), b.subrange(1, b.len() as int))
    }
}

/// Lexicographic order is asymmetric.
pub proof fn lemma_name_lt_asym(a: Seq<char>, b: Seq<char>)
    ensures
        !(name_lt(a, b) && name_lt(b, a)),
    decreases a.len(),
{
    if a.len() > 0 && b.len() > 0 && a[0] == b[0] {
        lemma_name_lt_asym(a.subrange(1, a.len() as int), b.subrange(1, b.len() as int));
    }
}

/// Lexicographic order is transitive.
pub proof fn lemma_name_lt_trans(a: Seq<char>, b: Seq<char>, c: Seq<char>)
    requires
        name_lt(a, b),
        name_lt(b, c),
    ensures
        name_lt(a, c),
    decreases a.len(),
{
    if a.len() > 0 && b.len() > 0 && c.len() > 0 && a[0] == b[0] && b[0] == c[0] {
        lemma_name_lt_trans(
            a.subrange(1, a.len() as int),
            b.subrange(1, b.len() as int),
            c.subrange(1, c.len() as int),
        );
    }
}

/// Comparing past a common prefix of length `i`.
proof fn lemma_name_lt_skip(a: Seq<char>, b: Seq<char>, i: int)
    requires
        0 <= i <= a.len(),
        i <= b.len(),
        forall|j: int| 0 <= j < i ==> a[j] == b[j],
    ensures
        name_lt(a, b) == name_lt(a.subrange(i, a.len() as int), b.subrange(i, b.len() as int)),
    decreases i,
{
    if i > 0 {
        let a1 = a.subrange(1, a.len() as int);
        let b1 = b.subrange(1, b.len() as int);
        lemma_name_lt_skip(a1, b1, i - 1);
        assert(a1.subrange(i - 1, a1.len() as int) =~= a.subrange(i, a.len() as int));
        assert(b1.subrange(i - 1, b1.len() as int) =~= b.subrange(i, b.len() as int));
    } else {
        assert(a.subrange(0, a.len() as int) =~= a);
        assert(b.subrange(0, b.len() as int) =~= b);
    }
}

/// Whether `a` comes strictly before `b` in lexicographic order.
pub fn name_less(a: &str, b: &str) -> (r: bool)
    ensures
        r == name_lt(a@, b@),
{
    let x = crate::token::chars_of(a);
    let y = crate::token::chars_of(b);
    let mut i: usize = 0;
    while i < x.len() && i < y.len() && x[i] == y[i]
        invariant
            x@ == a@,
            y@ == b@,
            i <= x@.len(),
            i <= y@.len(),
            forall|j: int| 0 <= j < i ==> a@[j] == b@[j],
        decreases x.len() - i,
    {
        i = i + 1;
    }
    proof {
        lemma_name_lt_skip(a@, b@, i as int);
    }
    let ghost ra = a@.subrange(i as int, a@.len() as int);
    let ghost rb = b@.subrange(i as int, b@.len() as int);
    if i == x.len() {
        i < y.len()
    } else if i == y.len() {
        false
    } else {
        assert(ra[0] == x@[i as int] && rb[0] == y@[i as int]);
        x[i] < y[i]
    }
}


/// `s` up to its first `//`.
pub open spec fn before_slashes(s: Seq<char>) -> Seq<char> {
    if seq_contains(s, "//"@) {
        s.subrange(0, choose|i: int| occurs_at(s, "//"@, i) && forall|j: int| 0 <= j < i ==> !occurs_at(s, "//"@, j))
    } else {
        s
    }
}

/// `line` without a `//` comment.
pub fn strip_line_comment(line: &str) -> (r: String)
    ensures
        r@ == before_slashes(line@),
{
    let n = line.unicode_len();
    let mut i: usize = 0;
    while i < n
        invariant
            n == line@.len(),
            i <= n,
            forall|j: int| 0 <= j < i ==> !occurs_at(line@, "//"@, j),
        decreases n - i,
    {
        if matches_at(line, "//", i) {
            proof {
                let k = choose|k: int| occurs_at(line@, "//"@, k) && forall|j: int| 0 <= j < k ==> !occurs_at(line@, "//"@, j);
                assert(occurs_at(line@, "//"@, i as int));
                assert(k == i);
            }
            return slice(line, 0, i);
        }
        i = i + 1;
    }
    proof {
        reveal_strlit("//");
        assert forall|j: int| !occurs_at(line@, "//"@, j) by {
            if j >= n {
            }
        }
    }
    String::from_str(line)
}

/// The source text of `lines`: each without its `//` comment, ended by a newline.
pub open spec fn joined_source(lines: Seq<Seq<char>>) -> Seq<char>
    decreases lines.len(),
{
    if lines.len() == 0 {
        Seq::empty()
    } else {
        joined_source(lines.drop_last()) + before_slashes(lines.last()) + "\n"@
    }
}

/// The source text of `lines`: each without its `//` comment, ended by a newline.
pub fn source_of_lines(lines: &Vec<String>) -> (r: String)
    ensures
        r@ == joined_source(lines@.map_values(|l: String| l@)),
{
    let ghost lv = lines@.map_values(|l: String| l@);
    let mut out = String::new();
    let mut i: usize = 0;
    while i < lines.len()
        invariant
            i <= lines@.len(),
            lv == lines@.map_values(|l: String| l@),
            out@ == joined_source(lv.subrange(0, i as int)),
        decreases lines.len() - i,
    {
        assert(lv.subrange(0, i + 1).drop_last() =~= lv.subrange(0, i as int));
        assert(lv[i as int] == lines@[i as int]@);
        let stripped = strip_line_comment(lines[i].as_str());
        out = concat3(out.as_str(), stripped.as_str(), "\n");
        i = i + 1;
    }
    assert(lv.subrange(0, i as int) =~= lv);
    out
}


/// The instance names `C1`, `C2`, `C3` stand in that order.
pub proof fn lemma_instance_order()
    ensures
        !name_lt("C2"@, "C1"@),
        !name_lt("C3"@, "C1"@),
        !name_lt("C3"@, "C2"@),
{
    reveal_strlit("C1");
    reveal_strlit("C2");
    reveal_strlit("C3");
    reveal_with_fuel(name_lt, 3);
    assert("C2"@.subrange(1, 2) =~= seq!['2']);
    assert("C1"@.subrange(1, 2) =~= seq!['1']);
    assert("C3"@.subrange(1, 2) =~= seq!['3']);
}

} // verus!
