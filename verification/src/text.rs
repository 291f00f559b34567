//! Character-level helpers: Unicode whitespace, decimal and hexadecimal
//! rendering of integers, and conversions between `&str`, `Vec<char>` and
//! `String`.
use vstd::prelude::*;
use vstd::string::StrSliceExecFns;

verus! {

broadcast use vstd::string::group_string_axioms;

/// The Unicode `White_Space` property, which is what `char::is_whitespace` tests.
pub open spec fn is_ws(c: char) -> bool {
    let u = c as u32;
    ||| 9 <= u <= 13
    ||| u == 0x20
    ||| u == 0x85
    ||| u == 0xA0
    ||| u == 0x1680
    ||| 0x2000 <= u <= 0x200A
    ||| u == 0x2028
    ||| u == 0x2029
    ||| u == 0x202F
    ||| u == 0x205F
    ||| u == 0x3000
}

pub fn is_whitespace(c: char) -> (b: bool)
    ensures
        b == is_ws(c),
{
    let u = c as u32;
    (9 <= u && u <= 13) || u == 0x20 || u == 0x85 || u == 0xA0 || u == 0x1680 || (0x2000 <= u
        && u <= 0x200A) || u == 0x2028 || u == 0x2029 || u == 0x202F || u == 0x205F || u
        == 0x3000
}

/// The digit character for `d < 16`: `0`-`9`, then `A`-`F`.
pub open spec fn digit_char(d: nat) -> char {
    if d < 10 {
        (d + 48) as char
    } else {
        (d + 55) as char
    }
}

/// Decimal digits of `n`, most significant first, without leading zeros.
pub open spec fn dec(n: nat) -> Seq<char>
    decreases n,
{
    if n < 10 {
        seq![digit_char(n)]
    } else {
        dec(n / 10).push(digit_char(n % 10))
    }
}

/// Upper-case hexadecimal digits of `n`, most significant first, without leading zeros.
pub open spec fn hex(n: nat) -> Seq<char>
    decreases n,
{
    if n < 16 {
        seq![digit_char(n)]
    } else {
        hex(n / 16).push(digit_char(n % 16))
    }
}

/// `s` with `'0'` characters in front until it is at least `width` long.
pub open spec fn zero_padded(s: Seq<char>, width: nat) -> Seq<char> {
    if s.len() < width {
        Seq::new((width - s.len()) as nat, |i: int| '0') + s
    } else {
        s
    }
}

/// Decimal rendering of a signed integer, with a leading `-` when negative.
pub open spec fn signed_dec(n: int) -> Seq<char> {
    if n < 0 {
        seq!['-'] + dec((-n) as nat)
    } else {
        dec(n as nat)
    }
}

fn digit(d: u64) -> (c: char)
    requires
        d < 16,
    ensures
        c == digit_char(d as nat),
{
    if d < 10 {
        ((d as u8) + 48) as char
    } else {
        ((d as u8) + 55) as char
    }
}

pub fn chars_of(s: &str) -> (v: Vec<char>)
    ensures
        v@ == s@,
{
    let mut v: Vec<char> = Vec::new();
    for c in it: s.chars()
        invariant
            v@ == it.seq().take(it.index() as int),
    {
        v.push(c);
    }
    v
}


/// Appends the decimal digits of `n`.
pub fn push_dec(out: &mut Vec<char>, n: u64)
    ensures
        final(out)@ == old(out)@ + dec(n as nat),
    decreases n,
{
    if n >= 10 {
        push_dec(out, n / 10);
    }
    out.push(digit(n % 10));
    proof {
        if n >= 10 {
            assert(final(out)@ =~= old(out)@ + dec(n as nat));
        } else {
            assert(final(out)@ =~= old(out)@ + dec(n as nat));
        }
    }
}

fn push_hex_digits(out: &mut Vec<char>, n: u64)
    ensures
        final(out)@ == old(out)@ + hex(n as nat),
    decreases n,
{
    if n >= 16 {
        push_hex_digits(out, n / 16);
    }
    out.push(digit(n % 16));
    proof {
        assert(final(out)@ =~= old(out)@ + hex(n as nat));
    }
}

fn hex_len(n: u64) -> (r: usize)
    ensures
        r == hex(n as nat).len(),
        r <= 16,
    decreases n,
{
    if n >= 16 {
        proof {
            lemma_hex_len_bound(n as nat);
        }
        hex_len(n / 16) + 1
    } else {
        1
    }
}

proof fn lemma_hex_len_bound(n: nat)
    requires
        n < 0x1_0000_0000_0000_0000,
    ensures
        hex(n).len() <= 16,
{
    reveal_with_fuel(pow16, 17);
    assert(pow16(16) == 0x1_0000_0000_0000_0000);
    lemma_hex_len_pow(n, 16);
}

proof fn lemma_hex_len_pow(n: nat, k: nat)
    requires
        k >= 1,
        n < pow16(k),
    ensures
        hex(n).len() <= k,
    decreases k,
{
    if n >= 16 {
        let p = pow16((k - 1) as nat);
        assert(n / 16 < p) by (nonlinear_arith)
            requires
                n < 16 * p,
        ;
        if k == 1 {
            assert(false);
        } else {
            lemma_hex_len_pow(n / 16, (k - 1) as nat);
        }
    }
}

spec fn pow16(k: nat) -> nat
    decreases k,
{
    if k == 0 {
        1
    } else {
        16 * pow16((k - 1) as nat)
    }
}

/// Appends the upper-case hexadecimal digits of `n`, zero-padded to at least `width` characters.
pub fn push_hex(out: &mut Vec<char>, n: u64, width: usize)
    ensures
        final(out)@ == old(out)@ + zero_padded(hex(n as nat), width as nat),
{
    let len = hex_len(n);
    let ghost start = out@;
    let mut k: usize = len;
    while k < width
        invariant
            len <= k <= width || (k == len && len >= width),
            out@ == start + Seq::new((k - len) as nat, |i: int| '0'),
        decreases width - k,
    {
        out.push('0');
        k = k + 1;
        proof {
            assert(out@ =~= start + Seq::new((k - len) as nat, |i: int| '0'));
        }
    }
    let ghost mid = out@;
    push_hex_digits(out, n);
    proof {
        if len < width {
            assert(out@ =~= old(out)@ + zero_padded(hex(n as nat), width as nat));
        } else {
            assert(out@ =~= old(out)@ + zero_padded(hex(n as nat), width as nat));
        }
    }
}

/// Appends the decimal rendering of a signed value.
pub fn push_signed(out: &mut Vec<char>, n: i64)
    requires
        n > i64::MIN,
    ensures
        final(out)@ == old(out)@ + signed_dec(n as int),
{
    if n < 0 {
        out.push('-');
        push_dec(out, (-n) as u64);
        proof {
            assert(final(out)@ =~= old(out)@ + signed_dec(n as int));
        }
    } else {
        push_dec(out, n as u64);
    }
}

/// Appends the characters of `s`.
pub fn push_str(out: &mut Vec<char>, s: &str)
    ensures
        final(out)@ == old(out)@ + s@,
{
    let n = s.unicode_len();
    let mut i: usize = 0;
    while i < n
        invariant
            n == s@.len(),
            i <= n,
            out@ == old(out)@ + s@.take(i as int),
        decreases n - i,
    {
        out.push(s.get_char(i));
        i = i + 1;
        proof {
            assert(out@ =~= old(out)@ + s@.take(i as int));
        }
    }
    proof {
        assert(s@.take(n as int) =~= s@);
    }
}

/// Appends the characters of `s`.
pub fn push_chars(out: &mut Vec<char>, s: &[char])
    ensures
        final(out)@ == old(out)@ + s@,
{
    let mut i: usize = 0;
    while i < s.len()
        invariant
            i <= s@.len(),
            out@ == old(out)@ + s@.take(i as int),
        decreases s@.len() - i,
    {
        out.push(s[i]);
        i = i + 1;
        proof {
            assert(out@ =~= old(out)@ + s@.take(i as int));
        }
    }
    proof {
        assert(s@.take(s@.len() as int) =~= s@);
    }
}

/// `FromIterator<char> for String` (std): the `String` holds exactly the given characters,
/// in order.
#[verifier::external_body]
pub(crate) fn string_from_chars(v: &[char]) -> (s: String)
    ensures
        s@ == v@,
{
    v.iter().collect()
}

/// Equality of a character sequence with a string.
pub fn chars_eq_str(v: &[char], s: &str) -> (b: bool)
    ensures
        b == (v@ == s@),
{
    let n = s.unicode_len();
    if v.len() != n {
        return false;
    }
    let mut i: usize = 0;
    while i < n
        invariant
            n == s@.len(),
            n == v@.len(),
            i <= n,
            forall|j: int| 0 <= j < i ==> v@[j] == s@[j],
        decreases n - i,
    {
        if v[i] != s.get_char(i) {
            return false;
        }
        i = i + 1;
    }
    proof {
        assert(v@ =~= s@);
    }
    true
}


// ===== Trimming, searching, splitting =====

/// `s` without its leading whitespace.
pub open spec fn trim_start(s: Seq<char>) -> Seq<char>
    decreases s.len(),
{
    if s.len() > 0 && is_ws(s[0]) {
        trim_start(s.drop_first())
    } else {
        s
    }
}

/// `s` without its trailing whitespace.
pub open spec fn trim_end(s: Seq<char>) -> Seq<char>
    decreases s.len(),
{
    if s.len() > 0 && is_ws(s.last()) {
        trim_end(s.drop_last())
    } else {
        s
    }
}

/// `s` without leading and trailing whitespace, as `str::trim` gives it.
pub open spec fn trimmed(s: Seq<char>) -> Seq<char> {
    trim_end(trim_start(s))
}

/// Copies `s` without leading and trailing whitespace.
pub fn trim(s: &[char]) -> (r: Vec<char>)
    ensures
        r@ == trimmed(s@),
{
    let n = s.len();
    let mut i: usize = 0;
    proof {
        assert(s@.skip(0) =~= s@);
    }
    while i < n && is_whitespace(s[i])
        invariant
            n == s@.len(),
            i <= n,
            trim_start(s@) == trim_start(s@.skip(i as int)),
        decreases n - i,
    {
        proof {
            assert(s@.skip(i as int).drop_first() =~= s@.skip(i + 1));
        }
        i = i + 1;
    }
    let ghost front = s@.skip(i as int);
    proof {
        if i == n {
            assert(front.len() == 0);
        }
        assert(trim_start(s@) == front);
    }
    let mut j: usize = n;
    while j > i && is_whitespace(s[j - 1])
        invariant
            n == s@.len(),
            i <= j <= n,
            front == s@.subrange(i as int, n as int),
            trim_end(front) == trim_end(s@.subrange(i as int, j as int)),
        decreases j,
    {
        proof {
            assert(s@.subrange(i as int, j as int).drop_last() =~= s@.subrange(i as int, j - 1));
        }
        j = j - 1;
    }
    proof {
        assert(front =~= s@.subrange(i as int, n as int));
        assert(trim_end(s@.subrange(i as int, j as int)) == s@.subrange(i as int, j as int));
    }
    vstd::slice::slice_to_vec(vstd::slice::slice_subrange(s, i, j))
}

/// The index of the first `c` in `s`, as `str::find` gives it (counted in characters).
#[verifier::opaque]
pub open spec fn find(s: Seq<char>, c: char) -> Option<int> {
    if exists|i: int| 0 <= i < s.len() && s[i] == c {
        Some(choose|i: int| 0 <= i < s.len() && s[i] == c && forall|j: int| 0 <= j < i ==> s[j] != c)
    } else {
        None
    }
}

/// The index of the first `c` in `s`.
pub fn find_char(s: &[char], c: char) -> (r: Option<usize>)
    ensures
        match r {
            Some(i) => find(s@, c) == Some(i as int),
            None => find(s@, c) is None,
        },
        r matches Some(i) ==> i < s@.len() && s@[i as int] == c,
        r is None ==> forall|j: int| 0 <= j < s@.len() ==> s@[j] != c,
{
    reveal(find);
    let mut i: usize = 0;
    while i < s.len()
        invariant
            i <= s@.len(),
            forall|j: int| 0 <= j < i ==> s@[j] != c,
        decreases s@.len() - i,
    {
        if s[i] == c {
            proof {
                reveal(find);
                let k = i as int;
                assert(0 <= k < s@.len() && s@[k] == c && forall|j: int| 0 <= j < k ==> s@[j] != c);
                let w = choose|w: int| 0 <= w < s@.len() && s@[w] == c && forall|j: int| 0 <= j < w ==> s@[j] != c;
                assert(w == k) by {
                    if w < k {
                        assert(s@[w] != c);
                    } else if w > k {
                        assert(s@[k] != c);
                    }
                }
            }
            return Some(i);
        }
        i = i + 1;
    }
    None
}

/// `s` up to its first `;` or `#`, whichever comes first; all of it when it has neither.
pub open spec fn strip_comment(s: Seq<char>) -> Seq<char> {
    match (find(s, ';'), find(s, '#')) {
        (Some(i), Some(j)) => s.take(if i < j { i } else { j }),
        (Some(i), None) => s.take(i),
        (None, Some(j)) => s.take(j),
        (None, None) => s,
    }
}

/// Copies `s` up to its first `;` or `#`, whichever comes first.
pub fn strip_comments(s: &[char]) -> (r: Vec<char>)
    ensures
        r@ == strip_comment(s@),
{
    let end = match (find_char(s, ';'), find_char(s, '#')) {
        (Some(i), Some(j)) => if i < j {
            i
        } else {
            j
        },
        (Some(i), None) => i,
        (None, Some(j)) => j,
        (None, None) => s.len(),
    };
    proof {
        if find(s@, ';') is None && find(s@, '#') is None {
            assert(s@.take(end as int) =~= s@);
        }
    }
    vstd::slice::slice_to_vec(vstd::slice::slice_subrange(s, 0, end))
}

/// A separator between the words of an instruction: a comma or whitespace.
pub open spec fn is_sep(c: char) -> bool {
    c == ',' || is_ws(c)
}

/// Words finished so far, and the word in progress, after reading `s`.
pub open spec fn word_scan(s: Seq<char>) -> (Seq<Seq<char>>, Seq<char>)
    decreases s.len(),
{
    if s.len() == 0 {
        (seq![], seq![])
    } else {
        let (done, cur) = word_scan(s.drop_last());
        if is_sep(s.last()) {
            (
                if cur.len() > 0 {
                    done.push(cur)
                } else {
                    done
                },
                seq![],
            )
        } else {
            (done, cur.push(s.last()))
        }
    }
}

/// The maximal runs of non-separator characters of `s`, in order: what splitting at commas
/// and whitespace and dropping the empty pieces leaves.
pub open spec fn words(s: Seq<char>) -> Seq<Seq<char>> {
    let (done, cur) = word_scan(s);
    if cur.len() > 0 {
        done.push(cur)
    } else {
        done
    }
}

/// Splits `s` at commas and whitespace, dropping empty pieces.
pub fn split_words(s: &[char]) -> (r: Vec<Vec<char>>)
    ensures
        r.deep_view() == words(s@),
        r@.len() == words(s@).len(),
        forall|i: int| 0 <= i < r@.len() ==> #[trigger] r@[i]@ == words(s@)[i],
{
    let r = split_words_deep(s);
    proof {
        lemma_deep_chars(&r);
    }
    r
}

/// The element views of a vector of character vectors are its deep view.
pub proof fn lemma_deep_chars(v: &Vec<Vec<char>>)
    ensures
        v@.len() == v.deep_view().len(),
        forall|i: int| 0 <= i < v@.len() ==> #[trigger] v@[i]@ == v.deep_view()[i],
{
    assert forall|i: int| 0 <= i < v@.len() implies #[trigger] v@[i]@ == v.deep_view()[i] by {
        assert(v@[i]@ =~= v@[i].deep_view());
    }
}

fn split_words_deep(s: &[char]) -> (r: Vec<Vec<char>>)
    ensures
        r.deep_view() == words(s@),
{
    let mut done: Vec<Vec<char>> = Vec::new();
    let mut cur: Vec<char> = Vec::new();
    let mut i: usize = 0;
    while i < s.len()
        invariant
            i <= s@.len(),
            (done.deep_view(), cur@) == word_scan(s@.take(i as int)),
        decreases s@.len() - i,
    {
        let c = s[i];
        proof {
            assert(s@.take(i + 1).drop_last() =~= s@.take(i as int));
        }
        if c == ',' || is_whitespace(c) {
            if cur.len() > 0 {
                let finished = cur;
                cur = Vec::new();
                let ghost before = done.deep_view();
                done.push(finished);
                proof {
                    assert(finished.deep_view() =~= finished@);
                    assert(done.deep_view() =~= before.push(finished@));
                }
            } else {
                cur = Vec::new();
            }
        } else {
            cur.push(c);
        }
        i = i + 1;
        proof {
            assert(cur@ =~= word_scan(s@.take(i as int)).1);
            assert(done.deep_view() =~= word_scan(s@.take(i as int)).0);
        }
    }
    proof {
        assert(s@.take(s@.len() as int) =~= s@);
    }
    if cur.len() > 0 {
        let ghost before = done.deep_view();
        let ghost last = cur@;
        proof {
            assert(cur.deep_view() =~= cur@);
        }
        done.push(cur);
        proof {
            assert(done.deep_view() =~= before.push(last));
        }
    }
    done
}

/// Lines ended so far (each without its `\n` and a `\r` before it), and the line in
/// progress, after reading `s`.
pub open spec fn line_scan(s: Seq<char>) -> (Seq<Seq<char>>, Seq<char>)
    decreases s.len(),
{
    if s.len() == 0 {
        (seq![], seq![])
    } else {
        let (done, cur) = line_scan(s.drop_last());
        if s.last() == '\n' {
            (done.push(without_cr(cur)), seq![])
        } else {
            (done, cur.push(s.last()))
        }
    }
}

/// A line without a final `\r`.
pub open spec fn without_cr(l: Seq<char>) -> Seq<char> {
    if l.len() > 0 && l.last() == '\r' {
        l.drop_last()
    } else {
        l
    }
}

/// The lines of `s`, as `str::lines` gives them: split at `\n` or `\r\n`, with a final
/// empty line not counted.
pub open spec fn lines(s: Seq<char>) -> Seq<Seq<char>> {
    let (done, cur) = line_scan(s);
    if cur.len() > 0 {
        done.push(cur)
    } else {
        done
    }
}

/// Splits `s` into lines.
pub fn split_lines(s: &[char]) -> (r: Vec<Vec<char>>)
    ensures
        r.deep_view() == lines(s@),
        r@.len() <= s@.len(),
        forall|i: int| 0 <= i < r@.len() ==> #[trigger] r@[i]@ == lines(s@)[i],
{
    let r = split_lines_deep(s);
    proof {
        lemma_deep_chars(&r);
    }
    r
}

fn split_lines_deep(s: &[char]) -> (r: Vec<Vec<char>>)
    ensures
        r.deep_view() == lines(s@),
        r@.len() <= s@.len(),
{
    let mut done: Vec<Vec<char>> = Vec::new();
    let mut cur: Vec<char> = Vec::new();
    let mut i: usize = 0;
    while i < s.len()
        invariant
            i <= s@.len(),
            (done.deep_view(), cur@) == line_scan(s@.take(i as int)),
            done@.len() + (if cur@.len() > 0 { 1int } else { 0int }) <= i,
        decreases s@.len() - i,
    {
        let c = s[i];
        proof {
            assert(s@.take(i + 1).drop_last() =~= s@.take(i as int));
        }
        if c == '\n' {
            let mut finished = cur;
            cur = Vec::new();
            let k = finished.len();
            if k > 0 && finished[k - 1] == '\r' {
                finished.pop();
            }
            let ghost before = done.deep_view();
            proof {
                assert(finished.deep_view() =~= finished@);
                assert(finished@ =~= without_cr(line_scan(s@.take(i as int)).1));
            }
            done.push(finished);
            proof {
                assert(done.deep_view() =~= before.push(finished@));
            }
        } else {
            cur.push(c);
        }
        i = i + 1;
        proof {
            assert(cur@ =~= line_scan(s@.take(i as int)).1);
            assert(done.deep_view() =~= line_scan(s@.take(i as int)).0);
        }
    }
    proof {
        assert(s@.take(s@.len() as int) =~= s@);
    }
    if cur.len() > 0 {
        let ghost before = done.deep_view();
        let ghost last = cur@;
        proof {
            assert(cur.deep_view() =~= cur@);
        }
        done.push(cur);
        proof {
            assert(done.deep_view() =~= before.push(last));
        }
    }
    done
}

// ===== Integers from text =====

/// The value of a digit character in bases up to 36 (`0`-`9`, then `a`-`z` or `A`-`Z`);
/// 36 for any other character.
pub open spec fn digit_value(c: char) -> nat {
    let u = c as u32;
    if 48 <= u <= 57 {
        (u - 48) as nat
    } else if 97 <= u <= 122 {
        (u - 87) as nat
    } else if 65 <= u <= 90 {
        (u - 55) as nat
    } else {
        36
    }
}

/// Whether every character of `s` is a digit in base `radix`.
pub open spec fn all_digits(s: Seq<char>, radix: nat) -> bool {
    forall|i: int| 0 <= i < s.len() ==> #[trigger] digit_value(s[i]) < radix
}

/// The value of a string of digits in base `radix`.
pub open spec fn digits_value(s: Seq<char>, radix: nat) -> nat
    decreases s.len(),
{
    if s.len() == 0 {
        0
    } else {
        digits_value(s.drop_last(), radix) * radix + digit_value(s.last())
    }
}

/// The integer `s` denotes in base `radix`, as Rust's integer parsing reads it: an
/// optional `+` (or `-` when `signed`), then one or more digits, nothing else.
pub open spec fn int_value(s: Seq<char>, radix: nat, signed: bool) -> Option<int> {
    if s.len() == 0 {
        None
    } else {
        let neg = signed && s[0] == '-';
        let body = if s[0] == '+' || neg {
            s.drop_first()
        } else {
            s
        };
        if body.len() == 0 || !all_digits(body, radix) {
            None
        } else if neg {
            Some(-digits_value(body, radix))
        } else {
            Some(digits_value(body, radix) as int)
        }
    }
}

/// What `i32::from_str_radix(s, radix)` gives, `None` for an error.
pub open spec fn parse_i32(s: Seq<char>, radix: nat) -> Option<i32> {
    match int_value(s, radix, true) {
        Some(v) => if i32::MIN <= v <= i32::MAX {
            Some(v as i32)
        } else {
            None
        },
        None => None,
    }
}

/// What `s.parse::<u8>()` gives, `None` for an error.
pub open spec fn parse_u8(s: Seq<char>) -> Option<u8> {
    match int_value(s, 10, false) {
        Some(v) => if 0 <= v <= u8::MAX {
            Some(v as u8)
        } else {
            None
        },
        None => None,
    }
}

proof fn lemma_digits_step(s: Seq<char>, radix: nat)
    requires
        s.len() > 0,
        radix >= 1,
    ensures
        digits_value(s, radix) >= digits_value(s.drop_last(), radix),
{
    let v = digits_value(s.drop_last(), radix);
    assert(v * radix >= v) by (nonlinear_arith)
        requires
            radix >= 1,
    ;
}

fn digit_val(c: char) -> (d: u32)
    ensures
        d == digit_value(c),
{
    let u = c as u32;
    if 48 <= u && u <= 57 {
        u - 48
    } else if 97 <= u && u <= 122 {
        u - 87
    } else if 65 <= u && u <= 90 {
        u - 55
    } else {
        36
    }
}

/// The digits of `s` in base `radix`, with their value capped at 2^32: `None` when a
/// character is not a digit or there are none.
fn capped_digits(s: &[char], start: usize, radix: u32) -> (r: Option<u64>)
    requires
        start <= s@.len(),
        2 <= radix <= 16,
    ensures
        ({
            let body = s@.skip(start as int);
            match r {
                Some(v) => body.len() > 0 && all_digits(body, radix as nat) && v == if digits_value(
                    body,
                    radix as nat,
                ) < 0x1_0000_0000 {
                    digits_value(body, radix as nat)
                } else {
                    0x1_0000_0000
                },
                None => body.len() == 0 || !all_digits(body, radix as nat),
            }
        }),
{
    let ghost body = s@.skip(start as int);
    if start == s.len() {
        return None;
    }
    let cap: u64 = 0x1_0000_0000;
    let mut v: u64 = 0;
    let mut i: usize = start;
    while i < s.len()
        invariant
            start <= i <= s@.len(),
            body == s@.skip(start as int),
            cap == 0x1_0000_0000,
            2 <= radix <= 16,
            all_digits(s@.subrange(start as int, i as int), radix as nat),
            v == if digits_value(s@.subrange(start as int, i as int), radix as nat) < cap {
                digits_value(s@.subrange(start as int, i as int), radix as nat)
            } else {
                cap as nat
            },
        decreases s@.len() - i,
    {
        let d = digit_val(s[i]);
        let ghost pre = s@.subrange(start as int, i as int);
        let ghost next = s@.subrange(start as int, i + 1);
        proof {
            assert(next.drop_last() =~= pre);
            assert(next.last() == s@[i as int]);
        }
        if d >= radix {
            proof {
                assert(body[i - start] == s@[i as int]);
            }
            return None;
        }
        proof {
            assert(all_digits(next, radix as nat)) by {
                assert forall|k: int| 0 <= k < next.len() implies #[trigger] digit_value(next[k])
                    < radix by {
                    if k < pre.len() {
                        assert(next[k] == pre[k]);
                    }
                }
            }
            lemma_digits_step(next, radix as nat);
        }
        if v < cap {
            proof {
                assert((v as int) * (radix as int) <= 0x10_0000_0000) by (nonlinear_arith)
                    requires
                        v < 0x1_0000_0000,
                        radix <= 16,
                ;
            }
            let w = v * (radix as u64) + (d as u64);
            if w < cap {
                v = w;
            } else {
                v = cap;
            }
        } else {
            proof {
                let p = digits_value(pre, radix as nat);
                assert(p * radix + d >= cap) by (nonlinear_arith)
                    requires
                        p >= cap,
                        radix >= 2,
                ;
            }
        }
        i = i + 1;
    }
    proof {
        assert(s@.subrange(start as int, s@.len() as int) =~= body);
    }
    Some(v)
}

/// `i32::from_str_radix(s, radix)` for radix 10 or 16; `None` for an error.
pub fn parse_i32_radix(s: &[char], radix: u32) -> (r: Option<i32>)
    requires
        radix == 10 || radix == 16,
    ensures
        r == parse_i32(s@, radix as nat),
{
    if s.len() == 0 {
        return None;
    }
    let neg = s[0] == '-';
    let start: usize = if s[0] == '+' || neg {
        1
    } else {
        0
    };
    proof {
        if start == 1 {
            assert(s@.skip(1) =~= s@.drop_first());
        } else {
            assert(s@.skip(0) =~= s@);
        }
    }
    match capped_digits(s, start, radix) {
        None => None,
        Some(v) => {
            if neg {
                if v <= 0x8000_0000 {
                    Some((0 - (v as i64)) as i32)
                } else {
                    None
                }
            } else {
                if v <= 0x7fff_ffff {
                    Some(v as i32)
                } else {
                    None
                }
            }
        },
    }
}

/// `s.parse::<u8>()`; `None` for an error.
pub fn parse_u8_dec(s: &[char]) -> (r: Option<u8>)
    ensures
        r == parse_u8(s@),
{
    if s.len() == 0 {
        return None;
    }
    let start: usize = if s[0] == '+' {
        1
    } else {
        0
    };
    proof {
        if start == 1 {
            assert(s@.skip(1) =~= s@.drop_first());
        } else {
            assert(s@.skip(0) =~= s@);
        }
    }
    match capped_digits(s, start, 10) {
        None => None,
        Some(v) => if v <= 255 {
            Some(v as u8)
        } else {
            None
        },
    }
}


/// What `u32::from_str_radix(s, radix)` gives, `None` for an error.
pub open spec fn parse_u32(s: Seq<char>, radix: nat) -> Option<u32> {
    match int_value(s, radix, false) {
        Some(v) => if 0 <= v <= u32::MAX {
            Some(v as u32)
        } else {
            None
        },
        None => None,
    }
}

/// Hexadecimal rendering reads back: its characters are hexadecimal digits, and their
/// value is `n`.
pub proof fn lemma_hex_reads_back(n: nat)
    ensures
        hex(n).len() >= 1,
        all_digits(hex(n), 16),
        digits_value(hex(n), 16) == n,
    decreases n,
{
    lemma_digit_char_value(n % 16);
    if n >= 16 {
        lemma_hex_reads_back(n / 16);
        let h = hex(n);
        assert(h.drop_last() =~= hex(n / 16));
        assert(h.last() == digit_char(n % 16));
        assert(forall|i: int| 0 <= i < h.len() - 1 ==> h[i] == hex(n / 16)[i]);
        assert(digits_value(h, 16) == digits_value(hex(n / 16), 16) * 16 + digit_value(digit_char(n % 16)));
        assert((n / 16) * 16 + n % 16 == n) by (nonlinear_arith);
    } else {
        let h = hex(n);
        assert(h.drop_last() =~= seq![]);
        assert(h.last() == digit_char(n));
        assert(n % 16 == n);
        assert(digits_value(h, 16) == digits_value(h.drop_last(), 16) * 16 + digit_value(h.last()));
        assert(digits_value(h.drop_last(), 16) == 0);
    }
}

proof fn lemma_digit_char_value(d: nat)
    requires
        d < 16,
    ensures
        digit_value(digit_char(d)) == d,
        d < 10 ==> digit_char(d) as u32 == d + 48,
{
    if d < 10 {
        assert(((d + 48) as char) as u32 == d + 48);
    } else {
        assert(((d + 55) as char) as u32 == d + 55);
    }
}

/// Decimal rendering reads back: its characters are the digits `0`-`9`, their value is
/// `n`, and it starts with `0` only for `n == 0`.
pub proof fn lemma_dec_reads_back(n: nat)
    ensures
        dec(n).len() >= 1,
        all_digits(dec(n), 10),
        digits_value(dec(n), 10) == n,
        forall|i: int| 0 <= i < dec(n).len() ==> 48 <= #[trigger] (dec(n)[i] as u32) <= 57,
        n >= 1 ==> dec(n)[0] != '0',
    decreases n,
{
    lemma_digit_char_value(n % 10);
    if n >= 10 {
        lemma_dec_reads_back(n / 10);
        let d = dec(n);
        assert(d.drop_last() =~= dec(n / 10));
        assert(d.last() == digit_char(n % 10));
        assert(forall|i: int| 0 <= i < d.len() - 1 ==> d[i] == dec(n / 10)[i]);
        assert(digits_value(d, 10) == digits_value(dec(n / 10), 10) * 10 + digit_value(digit_char(n % 10)));
        assert((n / 10) * 10 + n % 10 == n) by (nonlinear_arith);
    } else {
        let d = dec(n);
        assert(d.drop_last() =~= seq![]);
        assert(d.last() == digit_char(n));
        assert(n % 10 == n);
        assert(digits_value(d, 10) == digits_value(d.drop_last(), 10) * 10 + digit_value(d.last()));
        assert(digits_value(d.drop_last(), 10) == 0);
    }
}

/// The first `c` in `s` is at `k`.
pub proof fn lemma_find_at(s: Seq<char>, c: char, k: int)
    requires
        0 <= k < s.len(),
        s[k] == c,
        forall|j: int| 0 <= j < k ==> s[j] != c,
    ensures
        find(s, c) == Some(k),
{
    reveal(find);
    let w = choose|w: int| 0 <= w < s.len() && s[w] == c && forall|j: int| 0 <= j < w ==> s[j] != c;
    assert(w == k) by {
        if w < k {
            assert(s[w] != c);
        } else if w > k {
            assert(s[k] != c);
        }
    }
}

/// A word: non-empty, with no separator in it.
pub open spec fn is_word(w: Seq<char>) -> bool {
    w.len() > 0 && forall|i: int| 0 <= i < w.len() ==> !is_sep(#[trigger] w[i])
}

/// The words of a scan: the finished ones, and the one in progress if any.
pub open spec fn flushed(scan: (Seq<Seq<char>>, Seq<char>)) -> Seq<Seq<char>> {
    if scan.1.len() > 0 {
        scan.0.push(scan.1)
    } else {
        scan.0
    }
}

/// Non-separators extend the word in progress.
pub proof fn lemma_scan_word(p: Seq<char>, w: Seq<char>)
    requires
        forall|i: int| 0 <= i < w.len() ==> !is_sep(#[trigger] w[i]),
    ensures
        word_scan(p + w) == (word_scan(p).0, word_scan(p).1 + w),
    decreases w.len(),
{
    if w.len() == 0 {
        assert(p + w =~= p);
        assert(word_scan(p).1 + w =~= word_scan(p).1);
    } else {
        lemma_scan_word(p, w.drop_last());
        assert((p + w).drop_last() =~= p + w.drop_last());
        assert((p + w).last() == w.last());
        assert(word_scan(p).1 + w =~= (word_scan(p).1 + w.drop_last()).push(w.last()));
    }
}

/// Separators finish the word in progress.
pub proof fn lemma_scan_seps(p: Seq<char>, q: Seq<char>)
    requires
        q.len() > 0,
        forall|i: int| 0 <= i < q.len() ==> is_sep(#[trigger] q[i]),
    ensures
        word_scan(p + q) == (flushed(word_scan(p)), Seq::<char>::empty()),
    decreases q.len(),
{
    assert((p + q).drop_last() =~= p + q.drop_last());
    assert((p + q).last() == q.last());
    if q.len() == 1 {
        assert(p + q.drop_last() =~= p);
    } else {
        lemma_scan_seps(p, q.drop_last());
    }
}

/// Separators and then a word: the words before are finished, and the new one is in
/// progress.
pub proof fn lemma_scan_sep_word(p: Seq<char>, q: Seq<char>, w: Seq<char>)
    requires
        q.len() > 0,
        forall|i: int| 0 <= i < q.len() ==> is_sep(#[trigger] q[i]),
        is_word(w),
    ensures
        word_scan(p + q + w) == (flushed(word_scan(p)), w),
{
    lemma_scan_seps(p, q);
    lemma_scan_word(p + q, w);
    assert(Seq::<char>::empty() + w =~= w);
}

/// A word alone scans as the word in progress.
pub proof fn lemma_scan_one_word(w: Seq<char>)
    requires
        is_word(w),
    ensures
        word_scan(w) == (Seq::<Seq<char>>::empty(), w),
{
    lemma_scan_word(seq![], w);
    assert(Seq::<char>::empty() + w =~= w);
    assert(Seq::<char>::empty() + w =~= w);
}

/// A word has no surrounding whitespace to trim.
pub proof fn lemma_trimmed_word(w: Seq<char>)
    requires
        is_word(w),
    ensures
        trimmed(w) == w,
{
    assert(!is_sep(w[0]));
    assert(!is_sep(w.last()));
}

/// Leading zeros add nothing to the value of a string of digits.
pub proof fn lemma_zero_padded_reads_back(s: Seq<char>, width: nat, radix: nat)
    requires
        all_digits(s, radix),
        radix >= 2,
    ensures
        all_digits(zero_padded(s, width), radix),
        digits_value(zero_padded(s, width), radix) == digits_value(s, radix),
        zero_padded(s, width).len() >= s.len(),
        forall|i: int| 0 <= i < zero_padded(s, width).len() - s.len() ==> #[trigger] zero_padded(s, width)[i] == '0',
        forall|i: int| 0 <= i < s.len() ==> zero_padded(s, width)[zero_padded(s, width).len() - s.len() + i] == #[trigger] s[i],
{
    if s.len() < width {
        let z = Seq::new((width - s.len()) as nat, |i: int| '0');
        lemma_zeros_then_digits(z, s, radix);
    }
}

proof fn lemma_zeros_then_digits(z: Seq<char>, s: Seq<char>, radix: nat)
    requires
        forall|i: int| 0 <= i < z.len() ==> z[i] == '0',
        all_digits(s, radix),
        radix >= 2,
    ensures
        all_digits(z + s, radix),
        digits_value(z + s, radix) == digits_value(s, radix),
    decreases s.len(), z.len(),
{
    if s.len() > 0 {
        lemma_zeros_then_digits(z, s.drop_last(), radix);
        assert((z + s).drop_last() =~= z + s.drop_last());
        assert((z + s).last() == s.last());
        assert(digits_value(z + s, radix) == digits_value(z + s.drop_last(), radix) * radix
            + digit_value(s.last()));
    } else if z.len() > 0 {
        lemma_zeros_then_digits(z.drop_last(), s, radix);
        assert((z + s).drop_last() =~= z.drop_last() + s);
        assert(s =~= seq![]);
        assert((z + s).last() == '0');
        assert(digit_value('0') == 0);
        assert(digits_value(z + s, radix) == digits_value(z.drop_last() + s, radix) * radix
            + digit_value('0'));
        assert(digits_value(z.drop_last() + s, radix) == 0);
        assert(0 * radix == 0) by (nonlinear_arith);
    } else {
        assert(z + s =~= seq![]);
    }
}

/// `u32::from_str_radix(s, 16)`; `None` for an error.
pub fn parse_u32_hex(s: &[char]) -> (r: Option<u32>)
    ensures
        r == parse_u32(s@, 16),
{
    if s.len() == 0 {
        return None;
    }
    let start: usize = if s[0] == '+' {
        1
    } else {
        0
    };
    proof {
        if start == 1 {
            assert(s@.skip(1) =~= s@.drop_first());
        } else {
            assert(s@.skip(0) =~= s@);
        }
    }
    match capped_digits(s, start, 16) {
        None => None,
        Some(v) => if v <= 0xffff_ffff {
            Some(v as u32)
        } else {
            None
        },
    }
}

// ===== Case mapping =====

/// Every character is ASCII.
pub open spec fn is_ascii_text(s: Seq<char>) -> bool {
    forall|i: int| 0 <= i < s.len() ==> (#[trigger] s[i] as u32) < 128
}

/// ASCII `a`-`z` to `A`-`Z`; any other character kept.
pub open spec fn ascii_upper(c: char) -> char {
    if 97 <= (c as u32) <= 122 {
        ((c as u32) - 32) as char
    } else {
        c
    }
}

/// ASCII `A`-`Z` to `a`-`z`; any other character kept.
pub open spec fn ascii_lower(c: char) -> char {
    if 65 <= (c as u32) <= 90 {
        ((c as u32) + 32) as char
    } else {
        c
    }
}

// What `str::to_uppercase` returns for a string of these characters (Unicode case mapping).
pub uninterp spec fn uppercase(s: Seq<char>) -> Seq<char>;

// What `str::to_lowercase` returns for a string of these characters (Unicode case mapping).
pub uninterp spec fn lowercase(s: Seq<char>) -> Seq<char>;

/// `str::to_uppercase` (std), on the string made of `s`. Its result is named `uppercase`;
/// the Unicode mapping behind it is not written out here. On ASCII text it is the ASCII
/// mapping, `a`-`z` to `A`-`Z` with everything else kept.
#[verifier::external_body]
pub(crate) fn to_uppercase(s: &[char]) -> (r: Vec<char>)
    ensures
        r@ == uppercase(s@),
        is_ascii_text(s@) ==> r@ == s@.map_values(|c: char| ascii_upper(c)),
{
    let text: String = s.iter().collect();
    text.to_uppercase().chars().collect()
}

/// `str::to_lowercase` (std), on the string made of `s`. Its result is named `lowercase`;
/// the Unicode mapping behind it is not written out here. On ASCII text it is the ASCII
/// mapping, `A`-`Z` to `a`-`z` with everything else kept.
#[verifier::external_body]
pub(crate) fn to_lowercase(s: &[char]) -> (r: Vec<char>)
    ensures
        r@ == lowercase(s@),
        is_ascii_text(s@) ==> r@ == s@.map_values(|c: char| ascii_lower(c)),
{
    let text: String = s.iter().collect();
    text.to_lowercase().chars().collect()
}

/// Upper-casing as `str::to_uppercase` does it: on ASCII text the ASCII mapping, on other
/// text the Unicode mapping, named `uppercase`.
pub open spec fn upper_text(s: Seq<char>) -> Seq<char> {
    if is_ascii_text(s) {
        s.map_values(|c: char| ascii_upper(c))
    } else {
        uppercase(s)
    }
}

/// Lower-casing as `str::to_lowercase` does it: on ASCII text the ASCII mapping, on other
/// text the Unicode mapping, named `lowercase`.
pub open spec fn lower_text(s: Seq<char>) -> Seq<char> {
    if is_ascii_text(s) {
        s.map_values(|c: char| ascii_lower(c))
    } else {
        lowercase(s)
    }
}

/// The characters of `s` upper-cased.
pub fn upper(s: &[char]) -> (r: Vec<char>)
    ensures
        r@ == upper_text(s@),
{
    to_uppercase(s)
}

/// The characters of `s` lower-cased.
pub fn lower(s: &[char]) -> (r: Vec<char>)
    ensures
        r@ == lower_text(s@),
{
    to_lowercase(s)
}

/// Equality of two character sequences.
pub fn chars_eq(a: &[char], b: &[char]) -> (r: bool)
    ensures
        r == (a@ == b@),
{
    if a.len() != b.len() {
        return false;
    }
    let mut i: usize = 0;
    while i < a.len()
        invariant
            a@.len() == b@.len(),
            i <= a@.len(),
            forall|j: int| 0 <= j < i ==> a@[j] == b@[j],
        decreases a@.len() - i,
    {
        if a[i] != b[i] {
            return false;
        }
        i = i + 1;
    }
    proof {
        assert(a@ =~= b@);
    }
    true
}

} // verus!
