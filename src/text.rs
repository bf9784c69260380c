//! Character classes and small string helpers shared by the lexer, the
//! parser and the formatter.
use vstd::prelude::*;
use vstd::std_specs::iter::IteratorSpec;
use vstd::string::*;

verus! {

/// The characters with the Unicode `White_Space` property.
pub open spec fn is_ws(c: char) -> bool {
    let u = c as u32;
    (0x09 <= u && u <= 0x0d) || u == 0x20 || u == 0x85 || u == 0xa0 || u == 0x1680 || (0x2000 <= u
        && u <= 0x200a) || u == 0x2028 || u == 0x2029 || u == 0x202f || u == 0x205f || u == 0x3000
}

/// `A-Z` and `a-z`.
pub open spec fn is_letter(c: char) -> bool {
    ('a' as u32 <= c as u32 && c as u32 <= 'z' as u32) || ('A' as u32 <= c as u32 && c as u32
        <= 'Z' as u32)
}

/// `0-9`.
pub open spec fn is_digit(c: char) -> bool {
    '0' as u32 <= c as u32 && c as u32 <= '9' as u32
}

pub open spec fn is_word_char(c: char) -> bool {
    is_letter(c) || is_digit(c) || c == '_'
}

pub fn is_whitespace(c: char) -> (r: bool)
    ensures
        r == is_ws(c),
{
    let u = c as u32;
    (0x09 <= u && u <= 0x0d) || u == 0x20 || u == 0x85 || u == 0xa0 || u == 0x1680 || (0x2000 <= u
        && u <= 0x200a) || u == 0x2028 || u == 0x2029 || u == 0x202f || u == 0x205f || u == 0x3000
}

pub fn is_ascii_letter(c: char) -> (r: bool)
    ensures
        r == is_letter(c),
{
    ('a' as u32 <= c as u32 && c as u32 <= 'z' as u32) || ('A' as u32 <= c as u32 && c as u32
        <= 'Z' as u32)
}

pub fn is_ascii_digit(c: char) -> (r: bool)
    ensures
        r == is_digit(c),
{
    '0' as u32 <= c as u32 && c as u32 <= '9' as u32
}

/// Drops leading whitespace.
pub open spec fn trim_front(b: Seq<char>) -> Seq<char>
    decreases b.len(),
{
    if b.len() > 0 && is_ws(b[0]) {
        trim_front(b.subrange(1, b.len() as int))
    } else {
        b
    }
}

/// Drops trailing whitespace.
pub open spec fn trim_back(b: Seq<char>) -> Seq<char>
    decreases b.len(),
{
    if b.len() > 0 && is_ws(b.last()) {
        trim_back(b.drop_last())
    } else {
        b
    }
}

pub open spec fn trimmed(b: Seq<char>) -> Seq<char> {
    trim_back(trim_front(b))
}

/// The characters of `s`, in order.
pub(crate) fn chars_of(s: &str) -> (r: Vec<char>)
    ensures
        r@ == s@,
{
    broadcast use vstd::string::group_string_axioms;

    let n = s.unicode_len();
    let mut it = s.chars();
    let mut v: Vec<char> = Vec::new();
    let mut i: usize = 0;
    while i < n
        invariant
            n == s@.len(),
            i <= n,
            v@.len() == i,
            v@ + it.remaining() == s@,
        decreases n - i,
    {
        assert(it.remaining().len() > 0);
        match it.next() {
            Some(c) => {
                assert(v@.push(c) + it.remaining() =~= s@);
                v.push(c);
            },
            None => {
                assert(false);
            },
        }
        i = i + 1;
    }
    assert(it.remaining().len() == 0);
    assert(v@ =~= s@);
    v
}

/// Relies on collecting a `char` iterator into a `String`: the string holds
/// exactly those characters, in order.
#[verifier::external_body]
pub(crate) fn string_of(v: &Vec<char>) -> (r: String)
    ensures
        r@ == v@,
{
    v.iter().collect()
}

/// Character-wise equality of two strings.
pub fn str_eq(a: &str, b: &str) -> (r: bool)
    ensures
        r == (a@ == b@),
{
    let n = a.unicode_len();
    if n != b.unicode_len() {
        return false;
    }
    let mut i: usize = 0;
    while i < n
        invariant
            n == a@.len(),
            n == b@.len(),
            i <= n,
            a@.subrange(0, i as int) == b@.subrange(0, i as int),
        decreases n - i,
    {
        if a.get_char(i) != b.get_char(i) {
            return false;
        }
        assert(a@.subrange(0, i + 1) == a@.subrange(0, i as int).push(a@[i as int]));
        assert(b@.subrange(0, i + 1) == b@.subrange(0, i as int).push(b@[i as int]));
        i = i + 1;
    }
    assert(a@ == a@.subrange(0, n as int));
    assert(b@ == b@.subrange(0, n as int));
    true
}

proof fn lemma_trim_front_index(b: Seq<char>, k: int)
    requires
        0 <= k <= b.len(),
        forall|j: int| 0 <= j < k ==> is_ws(#[trigger] b[j]),
    ensures
        trim_front(b) == trim_front(b.subrange(k, b.len() as int)),
    decreases k,
{
    if k > 0 {
        let t = b.subrange(1, b.len() as int);
        assert forall|j: int| 0 <= j < k - 1 implies is_ws(#[trigger] t[j]) by {
            assert(t[j] == b[j + 1]);
        }
        lemma_trim_front_index(t, k - 1);
        assert(t.subrange(k - 1, t.len() as int) == b.subrange(k, b.len() as int));
    } else {
        assert(b.subrange(0, b.len() as int) == b);
    }
}

proof fn lemma_trim_back_index(b: Seq<char>, k: int)
    requires
        0 <= k <= b.len(),
        forall|j: int| k <= j < b.len() ==> is_ws(#[trigger] b[j]),
    ensures
        trim_back(b) == trim_back(b.subrange(0, k)),
    decreases b.len() - k,
{
    if k < b.len() {
        let t = b.drop_last();
        assert forall|j: int| k <= j < t.len() implies is_ws(#[trigger] t[j]) by {
            assert(t[j] == b[j]);
        }
        lemma_trim_back_index(t, k);
        assert(t.subrange(0, k) == b.subrange(0, k));
    } else {
        assert(b.subrange(0, k) == b);
    }
}

/// The characters `v[from..to]` with surrounding whitespace removed.
pub fn trim_chars(v: &Vec<char>, from: usize, to: usize) -> (r: Vec<char>)
    requires
        from <= to <= v@.len(),
    ensures
        r@ == trimmed(v@.subrange(from as int, to as int)),
{
    let ghost b = v@.subrange(from as int, to as int);
    let mut a: usize = from;
    while a < to && is_whitespace(v[a])
        invariant
            from <= a <= to <= v@.len(),
            b == v@.subrange(from as int, to as int),
            forall|j: int| 0 <= j < a - from ==> is_ws(#[trigger] b[j]),
        decreases to - a,
    {
        a = a + 1;
    }
    proof {
        lemma_trim_front_index(b, a - from);
        let t = b.subrange(a - from, b.len() as int);
        assert(t == v@.subrange(a as int, to as int));
        if t.len() > 0 {
            assert(t[0] == v@[a as int]);
        }
        assert(trim_front(t) == t);
    }
    let mut z: usize = to;
    while z > a && is_whitespace(v[z - 1])
        invariant
            from <= a <= z <= to <= v@.len(),
            forall|j: int| z <= j < to ==> is_ws(#[trigger] v@[j]),
        decreases z,
    {
        z = z - 1;
    }
    let ghost t = v@.subrange(a as int, to as int);
    proof {
        assert forall|j: int| z - a <= j < t.len() implies is_ws(#[trigger] t[j]) by {
            assert(t[j] == v@[a + j]);
        }
        lemma_trim_back_index(t, z - a);
        let u = t.subrange(0, z - a);
        assert(u == v@.subrange(a as int, z as int));
        if u.len() > 0 {
            assert(u.last() == v@[z - 1]);
        }
        assert(trim_back(u) == u);
    }
    let mut r: Vec<char> = Vec::new();
    let mut i: usize = a;
    while i < z
        invariant
            a <= i <= z <= v@.len(),
            r@ == v@.subrange(a as int, i as int),
        decreases z - i,
    {
        r.push(v[i]);
        assert(v@.subrange(a as int, i + 1) == v@.subrange(a as int, i as int).push(v@[i as int]));
        i = i + 1;
    }
    r
}

} // verus!
