//! Small verified text utilities shared by the assembler and the VM
//! translator: string equality, trimming, and rendering of decimal and
//! binary numerals.

use vstd::prelude::*;

verus! {

/// Whether `c` is an ASCII decimal digit.
pub open spec fn is_dec_digit(c: char) -> bool {
    '0' <= c && c <= '9'
}

/// The numeric value of an ASCII decimal digit.
pub open spec fn digit_val(c: char) -> nat {
    (c as nat - '0' as nat) as nat
}

/// Whether every character of `s` is an ASCII decimal digit.
pub open spec fn all_digits(s: Seq<char>) -> bool {
    forall|i: int| 0 <= i < s.len() ==> is_dec_digit(#[trigger] s[i])
}

/// The numeric value of a sequence of decimal digits, most significant first.
pub open spec fn dec_val(s: Seq<char>) -> nat
    decreases s.len(),
{
    if s.len() == 0 {
        0
    } else {
        dec_val(s.drop_last()) * 10 + digit_val(s.last())
    }
}

/// The digit character for a value below ten.
pub open spec fn digit_char(n: nat) -> char {
    if n == 0 { '0' }
    else if n == 1 { '1' }
    else if n == 2 { '2' }
    else if n == 3 { '3' }
    else if n == 4 { '4' }
    else if n == 5 { '5' }
    else if n == 6 { '6' }
    else if n == 7 { '7' }
    else if n == 8 { '8' }
    else { '9' }
}

/// The canonical decimal numeral of `n`: no leading zeros, most significant
/// digit first.
pub open spec fn dec_text(n: nat) -> Seq<char>
    decreases n,
{
    if n < 10 {
        seq![digit_char(n)]
    } else {
        dec_text(n / 10).push(digit_char(n % 10))
    }
}

/// Every canonical decimal numeral consists of digits and is non-empty.
pub proof fn lemma_dec_text_digits(n: nat)
    ensures
        all_digits(dec_text(n)),
        dec_text(n).len() >= 1,
    decreases n,
{
    if n < 10 {
        assert forall|i: int| 0 <= i < dec_text(n).len() implies is_dec_digit(#[trigger] dec_text(n)[i]) by {
            assert(dec_text(n)[0] == digit_char(n));
        }
    } else {
        lemma_dec_text_digits(n / 10);
        assert forall|i: int| 0 <= i < dec_text(n).len() implies is_dec_digit(#[trigger] dec_text(n)[i]) by {
            if i < dec_text(n / 10).len() {
                assert(dec_text(n)[i] == dec_text(n / 10)[i]);
            } else {
                assert(dec_text(n)[i] == digit_char(n % 10));
            }
        }
    }
}

/// Reading the canonical decimal numeral of `n` back yields `n`.
pub proof fn lemma_dec_val_dec_text(n: nat)
    ensures
        dec_val(dec_text(n)) == n,
    decreases n,
{
    if n < 10 {
        let t = dec_text(n);
        assert(t == seq![digit_char(n)]);
        assert(t.len() == 1);
        assert(t.last() == digit_char(n));
        assert(t.drop_last() =~= Seq::<char>::empty());
        assert(dec_val(Seq::<char>::empty()) == 0);
        assert(dec_val(t) == dec_val(t.drop_last()) * 10 + digit_val(t.last()));
        assert(digit_val(digit_char(n)) == n);
    } else {
        lemma_dec_val_dec_text(n / 10);
        let t = dec_text(n / 10).push(digit_char(n % 10));
        assert(t.drop_last() =~= dec_text(n / 10));
        assert(t.last() == digit_char(n % 10));
        assert(dec_val(t) == (n / 10) * 10 + (n % 10));
        assert((n / 10) * 10 + (n % 10) == n) by (nonlinear_arith);
    }
}

/// Distinct numbers have distinct canonical decimal numerals.
pub proof fn lemma_dec_text_injective(a: nat, b: nat)
    requires
        dec_text(a) == dec_text(b),
    ensures
        a == b,
{
    lemma_dec_val_dec_text(a);
    lemma_dec_val_dec_text(b);
}

/// Equal sequences with the same prefix have equal remainders.
pub proof fn lemma_concat_left_cancel(p: Seq<char>, x: Seq<char>, y: Seq<char>)
    requires
        p + x == p + y,
    ensures
        x == y,
{
    assert((p + x).len() == p.len() + x.len());
    assert((p + y).len() == p.len() + y.len());
    assert(x.len() == y.len());
    assert forall|i: int| 0 <= i < x.len() implies x[i] == y[i] by {
        assert((p + x)[p.len() + i] == x[i]);
        assert((p + y)[p.len() + i] == y[i]);
    }
    assert(x =~= y);
}

/// The digit character of a value below ten, as a string slice.
fn digit_str(d: u64) -> (r: &'static str)
    requires
        d < 10,
    ensures
        r@ == seq![digit_char(d as nat)],
{
    proof {
        reveal_strlit("0");
        reveal_strlit("1");
        reveal_strlit("2");
        reveal_strlit("3");
        reveal_strlit("4");
        reveal_strlit("5");
        reveal_strlit("6");
        reveal_strlit("7");
        reveal_strlit("8");
        reveal_strlit("9");
    }
    let r = match d {
        0 => "0",
        1 => "1",
        2 => "2",
        3 => "3",
        4 => "4",
        5 => "5",
        6 => "6",
        7 => "7",
        8 => "8",
        _ => "9",
    };
    proof {
        assert(r@ =~= seq![digit_char(d as nat)]);
    }
    r
}

/// Renders `n` as its canonical decimal numeral.
pub fn to_decimal(n: u64) -> (s: String)
    ensures
        s@ == dec_text(n as nat),
    decreases n,
{
    if n < 10 {
        let s = digit_str(n).to_owned();
        proof {
            assert(s@ =~= dec_text(n as nat));
        }
        s
    } else {
        let mut s = to_decimal(n / 10);
        s.append(digit_str(n % 10));
        proof {
            assert(s@ =~= dec_text(n as nat));
        }
        s
    }
}

/// The character for one binary digit.
pub open spec fn bit_char(b: nat) -> char {
    if b == 1 { '1' } else { '0' }
}

/// The low `bits` binary digits of `w`, most significant first.
pub open spec fn bin_text(w: nat, bits: nat) -> Seq<char>
    decreases bits,
{
    if bits == 0 {
        Seq::empty()
    } else {
        bin_text(w / 2, (bits - 1) as nat).push(bit_char(w % 2))
    }
}

fn to_binary_rec(w: u16, bits: u16) -> (s: String)
    requires
        bits <= 16,
    ensures
        s@ == bin_text(w as nat, bits as nat),
    decreases bits,
{
    proof {
        reveal_strlit("0");
        reveal_strlit("1");
    }
    if bits == 0 {
        let s = String::new();
        proof {
            assert(s@ =~= bin_text(w as nat, 0));
        }
        s
    } else {
        let mut s = to_binary_rec(w / 2, bits - 1);
        s.append(if w % 2 == 1 { "1" } else { "0" });
        proof {
            assert(s@ =~= bin_text(w as nat, bits as nat));
        }
        s
    }
}

/// Law: a rendered binary word is exactly `bits` characters, each a `0`
/// or a `1`, most significant bit first — so every emitted machine word
/// is sixteen binary digits.
pub proof fn lemma_bin_text_shape(w: nat, bits: nat)
    ensures
        bin_text(w, bits).len() == bits,
        forall|i: int| 0 <= i < bits ==> ((#[trigger] bin_text(w, bits)[i]) == '0' || bin_text(
            w,
            bits,
        )[i] == '1'),
    decreases bits,
{
    if bits > 0 {
        lemma_bin_text_shape(w / 2, (bits - 1) as nat);
        let t = bin_text(w, bits);
        assert forall|i: int| 0 <= i < bits implies ((#[trigger] t[i]) == '0' || t[i] == '1') by {
            if i < bits - 1 {
                assert(t[i] == bin_text(w / 2, (bits - 1) as nat)[i]);
            } else {
                assert(t[i] == bit_char(w % 2));
            }
        }
    }
}

/// Renders `w` as exactly sixteen binary digits, most significant first.
pub fn to_binary16(w: u16) -> (s: String)
    ensures
        s@ == bin_text(w as nat, 16),
{
    to_binary_rec(w, 16)
}

/// Whether `c` is ASCII whitespace.
pub open spec fn is_space(c: char) -> bool {
    c == ' ' || c == '\t' || c == '\r' || c == '\n'
}

/// `s` with its leading whitespace removed.
pub open spec fn trim_start_spec(s: Seq<char>) -> Seq<char>
    decreases s.len(),
{
    if s.len() > 0 && is_space(s[0]) {
        trim_start_spec(s.drop_first())
    } else {
        s
    }
}

/// `s` with its trailing whitespace removed.
pub open spec fn trim_end_spec(s: Seq<char>) -> Seq<char>
    decreases s.len(),
{
    if s.len() > 0 && is_space(s.last()) {
        trim_end_spec(s.drop_last())
    } else {
        s
    }
}

/// `s` with leading and trailing whitespace removed.
pub open spec fn trim_spec(s: Seq<char>) -> Seq<char> {
    trim_end_spec(trim_start_spec(s))
}

proof fn lemma_trim_start_skip(s: Seq<char>, k: int)
    requires
        0 <= k <= s.len(),
        forall|j: int| 0 <= j < k ==> is_space(#[trigger] s[j]),
    ensures
        trim_start_spec(s) == trim_start_spec(s.skip(k)),
    decreases k,
{
    if k == 0 {
        assert(s.skip(0) =~= s);
    } else {
        assert(is_space(s[0]));
        assert(trim_start_spec(s) == trim_start_spec(s.drop_first()));
        assert(s.drop_first().skip(k - 1) =~= s.skip(k));
        lemma_trim_start_skip(s.drop_first(), k - 1);
    }
}

proof fn lemma_trim_end_take(s: Seq<char>, k: int)
    requires
        0 <= k <= s.len(),
        forall|j: int| s.len() - k <= j < s.len() ==> is_space(#[trigger] s[j]),
    ensures
        trim_end_spec(s) == trim_end_spec(s.take(s.len() - k)),
    decreases k,
{
    if k == 0 {
        assert(s.take(s.len() as int) =~= s);
    } else {
        assert(is_space(s.last()));
        assert(trim_end_spec(s) == trim_end_spec(s.drop_last()));
        assert(s.drop_last().take(s.len() - k) =~= s.take(s.len() - k));
        lemma_trim_end_take(s.drop_last(), k - 1);
    }
}

fn is_space_char(c: char) -> (r: bool)
    ensures
        r == is_space(c),
{
    c == ' ' || c == '\t' || c == '\r' || c == '\n'
}

/// Removes leading and trailing ASCII whitespace from `s`.
pub fn trim(s: &str) -> (r: &str)
    ensures
        r@ == trim_spec(s@),
{
    let len = s.unicode_len();
    let mut start: usize = 0;
    while start < len && is_space_char(s.get_char(start))
        invariant
            len == s@.len(),
            start <= len,
            forall|j: int| 0 <= j < start ==> is_space(#[trigger] s@[j]),
        decreases len - start,
    {
        start = start + 1;
    }
    proof {
        lemma_trim_start_skip(s@, start as int);
    }
    if start == len {
        proof {
            assert(s@.skip(len as int) =~= Seq::<char>::empty());
            reveal_strlit("");
            assert(""@ =~= trim_spec(s@));
        }
        return "";
    }
    // The character at `start` is not whitespace, so trimming from the start
    // keeps exactly the suffix beginning there.
    let ghost suffix = s@.skip(start as int);
    proof {
        assert(suffix[0] == s@[start as int]);
        assert(trim_start_spec(suffix) == suffix);
    }
    let mut end: usize = len;
    while end > start + 1 && is_space_char(s.get_char(end - 1))
        invariant
            len == s@.len(),
            start < end <= len,
            !is_space(s@[start as int]),
            forall|j: int| end <= j < len ==> is_space(#[trigger] s@[j]),
        decreases end,
    {
        end = end - 1;
    }
    let r = s.substring_char(start, end);
    proof {
        assert(forall|j: int|
            suffix.len() - (len - end) <= j < suffix.len() ==> is_space(#[trigger] suffix[j]));
        lemma_trim_end_take(suffix, (len - end) as int);
        let kept = suffix.take(suffix.len() - (len - end));
        if end > start + 1 {
            // The loop stopped on a non-whitespace character.
            assert(kept.last() == s@[end - 1]);
            assert(trim_end_spec(kept) == kept);
        } else {
            // Only the first retained character is left of `end`.
            assert(kept =~= seq![s@[start as int]]);
            assert(trim_end_spec(kept) == kept);
        }
        assert(r@ =~= kept);
    }
    r
}

/// Compares two string slices character for character.
pub fn str_eq(a: &str, b: &str) -> (r: bool)
    ensures
        r == (a@ == b@),
{
    let a_len = a.unicode_len();
    let b_len = b.unicode_len();
    if a_len != b_len {
        return false;
    }
    let mut i: usize = 0;
    while i < a_len
        invariant
            a_len == a@.len(),
            b_len == b@.len(),
            a_len == b_len,
            i <= a_len,
            forall|j: int| 0 <= j < i ==> a@[j] == b@[j],
        decreases a_len - i,
    {
        if a.get_char(i) != b.get_char(i) {
            return false;
        }
        i = i + 1;
    }
    proof {
        assert(a@ =~= b@);
    }
    true
}

/// The position of the first occurrence of `c` in `s`, if any.
pub open spec fn find_first(s: Seq<char>, c: char) -> Option<int>
    decreases s.len(),
{
    if s.len() == 0 {
        None
    } else if s[0] == c {
        Some(0)
    } else {
        match find_first(s.drop_first(), c) {
            None => None,
            Some(i) => Some(i + 1),
        }
    }
}

proof fn lemma_find_first_at(s: Seq<char>, c: char, i: int)
    requires
        0 <= i < s.len(),
        s[i] == c,
        forall|j: int| 0 <= j < i ==> s[j] != c,
    ensures
        find_first(s, c) == Some(i),
    decreases i,
{
    if i > 0 {
        lemma_find_first_at(s.drop_first(), c, i - 1);
    }
}

proof fn lemma_find_first_absent(s: Seq<char>, c: char)
    requires
        forall|j: int| 0 <= j < s.len() ==> s[j] != c,
    ensures
        find_first(s, c) is None,
    decreases s.len(),
{
    if s.len() > 0 {
        lemma_find_first_absent(s.drop_first(), c);
    }
}

/// Finds the first occurrence of `c` in `s`.
pub fn find_char(s: &str, c: char) -> (r: Option<usize>)
    ensures
        match r {
            Some(i) => i < s@.len() && find_first(s@, c) == Some(i as int),
            None => find_first(s@, c) is None,
        },
{
    let len = s.unicode_len();
    let mut i: usize = 0;
    while i < len
        invariant
            len == s@.len(),
            i <= len,
            forall|j: int| 0 <= j < i ==> s@[j] != c,
        decreases len - i,
    {
        if s.get_char(i) == c {
            proof {
                lemma_find_first_at(s@, c, i as int);
            }
            return Some(i);
        }
        i = i + 1;
    }
    proof {
        lemma_find_first_absent(s@, c);
    }
    None
}

/// The position of the first whitespace character in `s`, if any.
pub open spec fn find_space_first(s: Seq<char>) -> Option<int>
    decreases s.len(),
{
    if s.len() == 0 {
        None
    } else if is_space(s[0]) {
        Some(0)
    } else {
        match find_space_first(s.drop_first()) {
            None => None,
            Some(i) => Some(i + 1),
        }
    }
}

proof fn lemma_find_space_at(s: Seq<char>, i: int)
    requires
        0 <= i < s.len(),
        is_space(s[i]),
        forall|j: int| 0 <= j < i ==> !is_space(#[trigger] s[j]),
    ensures
        find_space_first(s) == Some(i),
    decreases i,
{
    if i > 0 {
        lemma_find_space_at(s.drop_first(), i - 1);
    }
}

proof fn lemma_find_space_absent(s: Seq<char>)
    requires
        forall|j: int| 0 <= j < s.len() ==> !is_space(#[trigger] s[j]),
    ensures
        find_space_first(s) is None,
    decreases s.len(),
{
    if s.len() > 0 {
        lemma_find_space_absent(s.drop_first());
    }
}

/// Finds the first whitespace character in `s`.
pub fn find_space(s: &str) -> (r: Option<usize>)
    ensures
        match r {
            Some(i) => i < s@.len() && find_space_first(s@) == Some(i as int),
            None => find_space_first(s@) is None,
        },
{
    let len = s.unicode_len();
    let mut i: usize = 0;
    while i < len
        invariant
            len == s@.len(),
            i <= len,
            forall|j: int| 0 <= j < i ==> !is_space(#[trigger] s@[j]),
        decreases len - i,
    {
        if is_space_char(s.get_char(i)) {
            proof {
                lemma_find_space_at(s@, i as int);
            }
            return Some(i);
        }
        i = i + 1;
    }
    proof {
        lemma_find_space_absent(s@);
    }
    None
}

/// The position where a `//` comment starts in `s`, if one does.
pub open spec fn comment_start(s: Seq<char>) -> Option<int>
    decreases s.len(),
{
    if s.len() < 2 {
        None
    } else if s[0] == '/' && s[1] == '/' {
        Some(0)
    } else {
        match comment_start(s.drop_first()) {
            None => None,
            Some(i) => Some(i + 1),
        }
    }
}

proof fn lemma_comment_start_at(s: Seq<char>, i: int)
    requires
        0 <= i,
        i + 1 < s.len(),
        s[i] == '/' && s[i + 1] == '/',
        forall|j: int| 0 <= j < i ==> !((#[trigger] s[j]) == '/' && s[j + 1] == '/'),
    ensures
        comment_start(s) == Some(i),
    decreases i,
{
    if i > 0 {
        lemma_comment_start_at(s.drop_first(), i - 1);
    }
}

proof fn lemma_comment_start_absent(s: Seq<char>)
    requires
        forall|j: int| 0 <= j && j + 1 < s.len() ==> !((#[trigger] s[j]) == '/' && s[j + 1] == '/'),
    ensures
        comment_start(s) is None,
    decreases s.len(),
{
    if s.len() >= 2 {
        lemma_comment_start_absent(s.drop_first());
    }
}

/// Finds the first `//` comment marker in `s`.
pub fn find_comment(s: &str) -> (r: Option<usize>)
    ensures
        match r {
            Some(i) => i + 1 < s@.len() && comment_start(s@) == Some(i as int),
            None => comment_start(s@) is None,
        },
{
    let len = s.unicode_len();
    if len < 2 {
        proof {
            lemma_comment_start_absent(s@);
        }
        return None;
    }
    let mut i: usize = 0;
    while i + 1 < len
        invariant
            len == s@.len(),
            i + 1 <= len,
            forall|j: int| 0 <= j < i ==> !((#[trigger] s@[j]) == '/' && s@[j + 1] == '/'),
        decreases len - i,
    {
        if s.get_char(i) == '/' && s.get_char(i + 1) == '/' {
            proof {
                lemma_comment_start_at(s@, i as int);
            }
            return Some(i);
        }
        i = i + 1;
    }
    proof {
        lemma_comment_start_absent(s@);
    }
    None
}

/// The value of a prefix of a digit string never exceeds the whole.
proof fn lemma_dec_val_prefix_le(s: Seq<char>, i: int)
    requires
        0 <= i <= s.len(),
    ensures
        dec_val(s.take(i)) <= dec_val(s),
    decreases s.len() - i,
{
    if i < s.len() {
        lemma_dec_val_prefix_le(s, i + 1);
        let t = s.take(i + 1);
        assert(t.drop_last() =~= s.take(i));
        assert(dec_val(t) == dec_val(s.take(i)) * 10 + digit_val(t.last()));
        assert(dec_val(s.take(i)) <= dec_val(s.take(i)) * 10) by (nonlinear_arith);
    } else {
        assert(s.take(i) =~= s);
    }
}

/// The outcome of reading a decimal numeral that must fit in fifteen bits.
#[derive(Clone, Copy, PartialEq, Eq, Structural, Debug)]
pub enum DecRead {
    /// The numeral's value.
    Value(u16),
    /// The text is empty or holds a non-digit character.
    NotNumeric,
    /// The value is `2^15` or more.
    TooBig,
}

/// Reads an unsigned decimal numeral that must be below `2^15`.
pub fn read_dec15(s: &str) -> (r: DecRead)
    ensures
        r == (if s@.len() == 0 || !all_digits(s@) {
            DecRead::NotNumeric
        } else if dec_val(s@) >= 0x8000 {
            DecRead::TooBig
        } else {
            DecRead::Value(dec_val(s@) as u16)
        }),
{
    let len = s.unicode_len();
    if len == 0 {
        return DecRead::NotNumeric;
    }
    let mut i: usize = 0;
    while i < len
        invariant
            len == s@.len(),
            i <= len,
            forall|j: int| 0 <= j < i ==> is_dec_digit(#[trigger] s@[j]),
        decreases len - i,
    {
        let c = s.get_char(i);
        if c < '0' || c > '9' {
            return DecRead::NotNumeric;
        }
        i = i + 1;
    }
    let mut value: u32 = 0;
    let mut i: usize = 0;
    while i < len
        invariant
            len == s@.len(),
            i <= len,
            all_digits(s@),
            value == dec_val(s@.take(i as int)),
            value < 0x8000,
        decreases len - i,
    {
        let c = s.get_char(i);
        value = value * 10 + (c as u32 - 48);
        proof {
            let t = s@.take(i + 1);
            assert(t.drop_last() =~= s@.take(i as int));
            assert(t.last() == s@[i as int]);
        }
        i = i + 1;
        if value >= 0x8000 {
            proof {
                lemma_dec_val_prefix_le(s@, i as int);
            }
            return DecRead::TooBig;
        }
    }
    proof {
        assert(s@.take(len as int) =~= s@);
    }
    DecRead::Value(value as u16)
}

} // verus!
