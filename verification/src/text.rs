//! Small string utilities shared by the rest of the crate.

use vstd::prelude::*;

verus! {

broadcast use vstd::seq::group_seq_axioms;

/// The first `max_len` characters of `s`, or all of `s` if it is shorter.
pub fn truncate_str(s: &str, max_len: usize) -> (r: String)
    ensures
        r@ == s@.take(if s@.len() <= max_len { s@.len() as int } else { max_len as int }),
{
    let n = s.unicode_len();
    if n <= max_len {
        let r = s.substring_char(0, n);
        assert(s@.take(n as int) =~= s@.subrange(0, n as int));
        r.to_owned()
    } else {
        let r = s.substring_char(0, max_len);
        assert(s@.take(max_len as int) =~= s@.subrange(0, max_len as int));
        r.to_owned()
    }
}

/// Character-for-character string equality.
pub fn str_eq(a: &str, b: &str) -> (r: bool)
    ensures
        r == (a@ == b@),
{
    let na = a.unicode_len();
    let nb = b.unicode_len();
    if na != nb {
        return false;
    }
    let mut i: usize = 0;
    while i < na
        invariant
            na == a@.len(),
            na == b@.len(),
            i <= na,
            forall|k: int| 0 <= k < i ==> a@[k] == b@[k],
        decreases na - i,
    {
        if a.get_char(i) != b.get_char(i) {
            return false;
        }
        i = i + 1;
    }
    proof {
        assert(a@ =~= b@);
    }
    true
}

/// True exactly when `p` is a prefix of `s`.
pub open spec fn has_prefix(s: Seq<char>, p: Seq<char>) -> bool {
    p.len() <= s.len() && s.take(p.len() as int) == p
}

pub fn starts_with(s: &str, p: &str) -> (r: bool)
    ensures
        r == has_prefix(s@, p@),
{
    let np = p.unicode_len();
    let ns = s.unicode_len();
    if np > ns {
        assert(!has_prefix(s@, p@));
        return false;
    }
    let mut i: usize = 0;
    while i < np
        invariant
            np == p@.len(),
            ns == s@.len(),
            np <= ns,
            i <= np,
            forall|k: int| 0 <= k < i ==> s@[k] == p@[k],
        decreases np - i,
    {
        if s.get_char(i) != p.get_char(i) {
            assert(s@.take(np as int)[i as int] != p@[i as int]);
            return false;
        }
        i = i + 1;
    }
    proof {
        assert(s@.take(np as int) =~= p@);
    }
    true
}

/// True exactly when `p` occurs in `s` starting at index `i`.
pub open spec fn occurs_at(s: Seq<char>, p: Seq<char>, i: int) -> bool {
    0 <= i && i + p.len() <= s.len() && s.subrange(i, i + p.len()) == p
}

/// The least index at which `p` occurs in `s`, if any, scanning from `from`.
pub open spec fn find_from(s: Seq<char>, p: Seq<char>, from: nat) -> Option<int>
    decreases s.len() + 1 - from,
{
    if from + p.len() > s.len() {
        None
    } else if occurs_at(s, p, from as int) {
        Some(from as int)
    } else {
        find_from(s, p, (from + 1) as nat)
    }
}

/// The index of the first occurrence of `p` in `s`, if any.
pub fn find_str(s: &str, p: &str) -> (r: Option<usize>)
    ensures
        match r {
            Some(i) => find_from(s@, p@, 0) == Some(i as int),
            None => find_from(s@, p@, 0) is None,
        },
{
    let ns = s.unicode_len();
    let np = p.unicode_len();
    let mut from: usize = 0;
    loop
        invariant
            ns == s@.len(),
            np == p@.len(),
            from <= ns,
            find_from(s@, p@, 0) == find_from(s@, p@, from as nat),
        decreases ns - from,
    {
        if np > ns || from > ns - np {
            assert(from + np > ns);
            assert(find_from(s@, p@, from as nat) is None);
            return None;
        }
        // check for an occurrence at `from`
        let mut k: usize = 0;
        let mut matched = true;
        while k < np && matched
            invariant
                ns == s@.len(),
                np == p@.len(),
                from + np <= ns,
                k <= np,
                matched ==> forall|m: int| 0 <= m < k ==> s@[from + m] == p@[m],
                !matched ==> !occurs_at(s@, p@, from as int),
                !matched ==> np > 0,
            decreases np - k + (if matched { 1int } else { 0int }),
        {
            if s.get_char(from + k) != p.get_char(k) {
                proof {
                    if occurs_at(s@, p@, from as int) {
                        assert(s@.subrange(from as int, from + np as int)[k as int] == s@[from
                            + k as int]);
                    }
                }
                matched = false;
            } else {
                k = k + 1;
            }
        }
        if matched {
            proof {
                assert(s@.subrange(from as int, from + p@.len()) =~= p@);
            }
            return Some(from);
        }
        assert(find_from(s@, p@, from as nat) == find_from(s@, p@, (from + 1) as nat));
        from = from + 1;
    }
}

pub proof fn lemma_find_from_some(s: Seq<char>, p: Seq<char>, from: nat, i: int)
    requires
        find_from(s, p, from) == Some(i),
    ensures
        occurs_at(s, p, i),
        from <= i,
    decreases s.len() + 1 - from,
{
    if from + p.len() > s.len() {
    } else if occurs_at(s, p, from as int) {
    } else {
        lemma_find_from_some(s, p, (from + 1) as nat, i);
    }
}

pub proof fn lemma_find_from_offset(s: Seq<char>, p: Seq<char>, base: nat, k: nat)
    requires
        base <= s.len(),
    ensures
        match find_from(s, p, (base + k) as nat) {
            Some(i) => find_from(s.skip(base as int), p, k) == Some(i - base),
            None => find_from(s.skip(base as int), p, k) is None,
        },
    decreases s.len() + 1 - base - k,
{
    let suffix = s.skip(base as int);
    if base + k + p.len() > s.len() {
    } else {
        assert(suffix.subrange(k as int, k as int + p.len()) =~= s.subrange(
            base as int + k,
            base as int + k + p.len(),
        ));
        if occurs_at(s, p, (base + k) as int) {
        } else {
            lemma_find_from_offset(s, p, base, (k + 1) as nat);
        }
    }
}

pub proof fn lemma_rfind_char_some(s: Seq<char>, c: char, upto: nat, i: int)
    requires
        upto <= s.len(),
        rfind_char_before(s, c, upto) == Some(i),
    ensures
        0 <= i < upto,
        s[i] == c,
    decreases upto,
{
    if upto > 0 && s[upto - 1] != c {
        lemma_rfind_char_some(s, c, (upto - 1) as nat, i);
    }
}

/// The greatest index at which character `c` stands in `s.take(upto)`, if any.
pub open spec fn rfind_char_before(s: Seq<char>, c: char, upto: nat) -> Option<int>
    decreases upto,
{
    if upto == 0 {
        None
    } else if s[upto - 1] == c {
        Some(upto - 1)
    } else {
        rfind_char_before(s, c, (upto - 1) as nat)
    }
}

/// The index of the last occurrence of `c` in `s`, if any.
pub fn rfind_char(s: &str, c: char) -> (r: Option<usize>)
    ensures
        match r {
            Some(i) => rfind_char_before(s@, c, s@.len()) == Some(i as int),
            None => rfind_char_before(s@, c, s@.len()) is None,
        },
{
    let n = s.unicode_len();
    let mut upto: usize = n;
    while upto > 0
        invariant
            n == s@.len(),
            upto <= n,
            rfind_char_before(s@, c, n as nat) == rfind_char_before(s@, c, upto as nat),
        decreases upto,
    {
        if s.get_char(upto - 1) == c {
            return Some(upto - 1);
        }
        upto = upto - 1;
    }
    None
}

pub open spec fn is_hex_digit(c: char) -> bool {
    ('0' <= c && c <= '9') || ('a' <= c && c <= 'f') || ('A' <= c && c <= 'F')
}

pub open spec fn hex_digit_val(c: char) -> int {
    if '0' <= c && c <= '9' {
        (c as int) - 48
    } else if 'a' <= c && c <= 'f' {
        (c as int) - 87
    } else {
        (c as int) - 55
    }
}

/// What percent-decoding makes of a text: `%` with two hex digits becomes
/// that byte, `%` with one trailing hex digit its value, a failed escape
/// keeps the characters, and `+` becomes a space.
pub open spec fn url_decode_text(s: Seq<char>) -> Seq<char>
    decreases s.len(),
{
    if s.len() == 0 {
        Seq::empty()
    } else if s[0] == '%' {
        if s.len() >= 3 {
            if is_hex_digit(s[1]) && is_hex_digit(s[2]) {
                seq![(((hex_digit_val(s[1]) * 16 + hex_digit_val(s[2])) as u8) as char)]
                    + url_decode_text(s.skip(3))
            } else {
                seq!['%', s[1], s[2]] + url_decode_text(s.skip(3))
            }
        } else if s.len() == 2 {
            if is_hex_digit(s[1]) {
                seq![((hex_digit_val(s[1]) as u8) as char)]
            } else {
                seq!['%', s[1]]
            }
        } else {
            seq!['%']
        }
    } else if s[0] == '+' {
        seq![' '] + url_decode_text(s.skip(1))
    } else {
        seq![s[0]] + url_decode_text(s.skip(1))
    }
}

fn hex_val_exec(c: char) -> (r: Option<u32>)
    ensures
        match r {
            Some(v) => is_hex_digit(c) && v as int == hex_digit_val(c) && v <= 15,
            None => !is_hex_digit(c),
        },
{
    if '0' <= c && c <= '9' {
        Some(c as u32 - 48)
    } else if 'a' <= c && c <= 'f' {
        Some(c as u32 - 87)
    } else if 'A' <= c && c <= 'F' {
        Some(c as u32 - 55)
    } else {
        None
    }
}

/// Decodes a percent-encoded form value, as [`url_decode_text`] says.
#[verifier::loop_isolation(false)]
pub fn urlencoding_decode(s: &str) -> (r: String)
    ensures
        r@ == url_decode_text(s@),
{
    let n = s.unicode_len();
    let mut out = String::new();
    let mut i: usize = 0;
    proof {
        assert(s@.skip(0) =~= s@);
    }
    while i < n
        invariant
            n == s@.len(),
            i <= n,
            url_decode_text(s@) == out@ + url_decode_text(s@.skip(i as int)),
        decreases n - i,
    {
        let ghost rest: Seq<char> = s@.skip(i as int);
        let c = s.get_char(i);
        proof {
            assert(rest[0] == s@[i as int]);
        }
        if c == '%' {
            if n - i > 2 {
                let c1 = s.get_char(i + 1);
                let c2 = s.get_char(i + 2);
                proof {
                    assert(rest[1] == s@[i + 1]);
                    assert(rest[2] == s@[i + 2]);
                    assert(rest.skip(3) =~= s@.skip(i + 3));
                }
                match (hex_val_exec(c1), hex_val_exec(c2)) {
                    (Some(v1), Some(v2)) => {
                        push_char(&mut out, ((v1 * 16 + v2) as u8) as char);
                    },
                    _ => {
                        push_char(&mut out, '%');
                        push_char(&mut out, c1);
                        push_char(&mut out, c2);
                    },
                }
                proof {
                    assert(url_decode_text(s@) =~= out@ + url_decode_text(s@.skip(i + 3)));
                }
                i = i + 3;
            } else if n - i > 1 {
                let c1 = s.get_char(i + 1);
                proof {
                    assert(rest[1] == s@[i + 1]);
                    assert(rest.len() == 2);
                }
                match hex_val_exec(c1) {
                    Some(v1) => {
                        push_char(&mut out, (v1 as u8) as char);
                    },
                    None => {
                        push_char(&mut out, '%');
                        push_char(&mut out, c1);
                    },
                }
                proof {
                    assert(s@.skip(n as int) =~= Seq::<char>::empty());
                    assert(url_decode_text(s@) =~= out@ + url_decode_text(s@.skip(n as int)));
                }
                i = n;
            } else {
                push_char(&mut out, '%');
                proof {
                    assert(rest.len() == 1);
                    assert(s@.skip(n as int) =~= Seq::<char>::empty());
                    assert(url_decode_text(s@) =~= out@ + url_decode_text(s@.skip(n as int)));
                }
                i = n;
            }
        } else {
            if c == '+' {
                push_char(&mut out, ' ');
            } else {
                push_char(&mut out, c);
            }
            proof {
                assert(rest.skip(1) =~= s@.skip(i + 1));
                assert(url_decode_text(s@) =~= out@ + url_decode_text(s@.skip(i + 1)));
            }
            i = i + 1;
        }
    }
    proof {
        assert(s@.skip(n as int) =~= Seq::<char>::empty());
    }
    out
}

/// Relies on `String::push`: appends one character.
#[verifier::external_body]
pub fn push_char(s: &mut String, c: char)
    ensures
        final(s)@ == old(s)@.push(c),
{
    s.push(c);
}

} // verus!
