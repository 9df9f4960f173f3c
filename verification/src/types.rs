//! Shared types (directory entries, status messages) and the formatting of
//! sizes and names for display.
use std::time::Instant;
use vstd::prelude::*;

use crate::text::{
    decimal, digit, digit_char, push_char, push_chars, push_decimal, chars_of, copy_string,
};

verus! {

/// The point in time at which a status message was created.
#[verifier::external_type_specification]
#[verifier::external_body]
pub struct ExInstant(Instant);

/// Represents a file system entry type.
#[derive(Debug, Clone, Copy, PartialEq, Eq, Structural)]
pub enum EntryType {
    File,
    Directory,
    Symlink,
}

/// Represents a single entry in a remote directory listing.
#[derive(Debug, Clone)]
pub struct DirectoryEntry {
    pub name: String,
    pub path: String,
    pub entry_type: EntryType,
    pub size: u64,
}

impl DirectoryEntry {
    /// A copy of this entry with the same name, path, type and size.
    pub fn duplicate(&self) -> (r: DirectoryEntry)
        ensures
            r == *self,
    {
        DirectoryEntry {
            name: copy_string(&self.name),
            path: copy_string(&self.path),
            entry_type: self.entry_type,
            size: self.size,
        }
    }
}

/// Severity level for status messages displayed in the TUI.
#[derive(Debug, Clone, Copy, PartialEq, Eq, Structural)]
pub enum StatusLevel {
    Info,
    Success,
    Error,
}

/// A status message shown in the footer bar of the TUI.
#[derive(Debug)]
pub struct StatusMessage {
    pub text: String,
    pub level: StatusLevel,
    pub created_at: Instant,
}

/// Largest power of two up to which every integer is exactly an `f64`.
pub open spec fn f64_exact_limit() -> nat {
    9007199254740992
}

/// Distance between neighbouring `f64` values around `b` (for `b < 2^64`).
pub open spec fn f64_spacing(b: nat) -> nat
    decreases b,
{
    if b < f64_exact_limit() {
        1
    } else {
        2 * f64_spacing(b / 2)
    }
}

/// The integer value of `b as f64`: `b` rounded to the nearest multiple of
/// the spacing there, ties to the even multiple.
pub open spec fn f64_round(b: nat) -> nat {
    let q = f64_spacing(b);
    let low = b % q;
    let base = (b - low) as nat;
    if 2 * low > q || (2 * low == q && (b / q) % 2 == 1) {
        base + q
    } else {
        base
    }
}

/// `r / unit` rounded to tenths, ties to even; the result counts tenths.
pub open spec fn tenths(r: nat, unit: nat) -> nat {
    let t = r * 10;
    let d = t / unit;
    let m = t % unit;
    if 2 * m > unit || (2 * m == unit && d % 2 == 1) {
        d + 1
    } else {
        d
    }
}

/// A count of tenths written with one decimal place, as `{:.1}` writes it.
pub open spec fn one_decimal(t: nat) -> Seq<char> {
    decimal(t / 10).push('.').push(digit_char(t % 10))
}

/// `bytes / unit` as an `f64` division written with one decimal place.
pub open spec fn scaled_text(bytes: u64, unit: nat) -> Seq<char> {
    one_decimal(tenths(f64_round(bytes as nat), unit))
}

pub open spec fn kib() -> nat {
    1024
}

pub open spec fn mib() -> nat {
    1048576
}

pub open spec fn gib() -> nat {
    1073741824
}

/// The human-readable rendering of a byte count.
pub open spec fn size_text(bytes: u64) -> Seq<char> {
    if bytes < kib() {
        decimal(bytes as nat) + seq![' ', 'B']
    } else if bytes < mib() {
        scaled_text(bytes, kib()) + seq![' ', 'K', 'B']
    } else if bytes < gib() {
        scaled_text(bytes, mib()) + seq![' ', 'M', 'B']
    } else {
        scaled_text(bytes, gib()) + seq![' ', 'G', 'B']
    }
}

/// The integer that `b as f64` denotes.
#[verifier::spinoff_prover]
fn f64_nearest(b: u64) -> (r: u128)
    ensures
        r == f64_round(b as nat),
        r <= 18446744073709555712u128,
{
    let mut q: u128 = 1;
    let mut x: u128 = b as u128;
    assert(x == (b as nat) / 1);
    while x >= 9007199254740992
        invariant
            1 <= q <= 4096,
            x == (b as nat) / (q as nat),
            q * x <= b,
            f64_spacing(b as nat) == q * f64_spacing(x as nat),
        decreases x,
    {
        assert(q < 2048) by (nonlinear_arith)
            requires
                q * x <= b,
                x >= 9007199254740992,
                b < 18446744073709551616int,
        ;
        proof {
            vstd::arithmetic::div_mod::lemma_div_denominator(b as int, q as int, 2);
            assert((2 * q) * (x / 2) <= q * x) by (nonlinear_arith)
                requires
                    q >= 1,
            ;
            assert(f64_spacing(x as nat) == 2 * f64_spacing((x / 2) as nat));
            assert(q * (2 * f64_spacing((x / 2) as nat)) == (2 * q) * f64_spacing(
                (x / 2) as nat,
            )) by (nonlinear_arith);
        }
        x = x / 2;
        q = q * 2;
    }
    let low = (b as u128) % q;
    proof {
        vstd::arithmetic::div_mod::lemma_fundamental_div_mod(b as int, q as int);
        vstd::arithmetic::div_mod::lemma_mod_bound(b as int, q as int);
        assert(f64_spacing(x as nat) == 1);
        assert(q * f64_spacing(x as nat) == q) by (nonlinear_arith)
            requires
                f64_spacing(x as nat) == 1,
        ;
        assert(f64_spacing(b as nat) == q);
        assert(q * x + low == b);
    }
    let base = (b as u128) - low;
    if 2 * low > q || (2 * low == q && x % 2 == 1) {
        assert(base + q <= 18446744073709555712u128) by (nonlinear_arith)
            requires
                base == b - low,
                low < q,
                b < 18446744073709551616int,
                q >= 1,
                q <= 4096,
                q * x == base,
        ;
        base + q
    } else {
        base
    }
}

/// Appends `one_decimal(tenths(r, unit))` to `s`.
fn push_scaled(s: &mut String, r: u128, unit: u128)
    requires
        r <= 18446744073709555712u128,
        0 < unit <= 1073741824,
    ensures
        final(s)@ == old(s)@ + one_decimal(tenths(r as nat, unit as nat)),
{
    let t = r * 10;
    let d = t / unit;
    let m = t % unit;
    let rounded = if 2 * m > unit || (2 * m == unit && d % 2 == 1) {
        assert(d <= t) by (nonlinear_arith)
            requires
                d == t / unit,
                unit >= 1,
                t >= 0,
        ;
        d + 1
    } else {
        d
    };
    push_decimal(s, rounded / 10);
    push_char(s, '.');
    push_char(s, digit(rounded % 10));
}

/// Appends `scaled_text(bytes, unit)` to `s`.
pub fn push_scaled_bytes(s: &mut String, bytes: u64, unit: u128)
    requires
        0 < unit <= 1073741824,
    ensures
        final(s)@ == old(s)@ + scaled_text(bytes, unit as nat),
{
    let r = f64_nearest(bytes);
    push_scaled(s, r, unit);
}

/// Format a byte count into a human-readable string.
///
/// Uses the following units:
/// - B for values < 1024
/// - KB for values < 1 MB (1,048,576)
/// - MB for values < 1 GB (1,073,741,824)
/// - GB for values >= 1 GB
/// Scaled values carry one decimal place, rounded as `{:.1}` rounds the
/// quotient of `bytes as f64` by the unit.
pub fn format_size(bytes: u64) -> (s: String)
    ensures
        s@ == size_text(bytes),
{
    let mut s = String::new();
    if bytes < 1024 {
        push_decimal(&mut s, bytes as u128);
        push_char(&mut s, ' ');
        push_char(&mut s, 'B');
    } else {
        let r = f64_nearest(bytes);
        if bytes < 1048576 {
            push_scaled(&mut s, r, 1024);
            push_char(&mut s, ' ');
            push_char(&mut s, 'K');
        } else if bytes < 1073741824 {
            push_scaled(&mut s, r, 1048576);
            push_char(&mut s, ' ');
            push_char(&mut s, 'M');
        } else {
            push_scaled(&mut s, r, 1073741824);
            push_char(&mut s, ' ');
            push_char(&mut s, 'G');
        }
        push_char(&mut s, 'B');
    }
    s
}

/// `name` cut to its first `max_len` characters and marked with `...` when
/// it is longer than that.
pub open spec fn truncated(name: Seq<char>, max_len: nat) -> Seq<char> {
    if name.len() <= max_len {
        name
    } else {
        name.take(max_len as int) + seq!['.', '.', '.']
    }
}

/// Truncate a name to `max_len` characters, appending "..." if it exceeds the limit.
///
/// If `name` fits within `max_len`, it is returned as-is.
/// If `name` exceeds `max_len`, the first `max_len` characters are kept and "..." is appended.
pub fn truncate_name(name: &str, max_len: usize) -> (r: String)
    ensures
        r@ == truncated(name@, max_len as nat),
{
    let v = chars_of(name);
    if v.len() <= max_len {
        let mut r = String::new();
        push_chars(&mut r, v.as_slice());
        r
    } else {
        let mut r = String::new();
        let mut i: usize = 0;
        while i < max_len
            invariant
                i <= max_len < v@.len(),
                r@ == v@.take(i as int),
            decreases max_len - i,
        {
            push_char(&mut r, v[i]);
            assert(v@.take(i + 1) == v@.take(i as int).push(v@[i as int]));
            i = i + 1;
        }
        push_char(&mut r, '.');
        push_char(&mut r, '.');
        push_char(&mut r, '.');
        assert(r@ == v@.take(max_len as int) + seq!['.', '.', '.']);
        r
    }
}

/// A truncated name never runs past `max_len` characters plus the marker,
/// keeps the name whole when it fits, and otherwise keeps exactly
/// `max_len` characters of it followed by `...`.
pub proof fn law_truncate_length(name: Seq<char>, max_len: nat)
    ensures
        truncated(name, max_len).len() <= max_len + 3,
        name.len() <= max_len ==> truncated(name, max_len) == name,
        name.len() > max_len ==> truncated(name, max_len).len() == max_len + 3
            && truncated(name, max_len).take(max_len as int) == name.take(max_len as int)
            && truncated(name, max_len).skip(max_len as int) == seq!['.', '.', '.'],
{
    if name.len() > max_len {
        let t = truncated(name, max_len);
        assert(t.take(max_len as int) =~= name.take(max_len as int));
        assert(t.skip(max_len as int) =~= seq!['.', '.', '.']);
    }
}


/// The unit that a byte count is shown in.
pub open spec fn size_unit(bytes: u64) -> Seq<char> {
    if bytes < kib() {
        seq!['B']
    } else if bytes < mib() {
        seq!['K', 'B']
    } else if bytes < gib() {
        seq!['M', 'B']
    } else {
        seq!['G', 'B']
    }
}

/// A size is shown as a number, a space and its unit: whole bytes below
/// 1 KiB, and KB, MB or GB with one decimal place above.
pub proof fn law_size_text_shape(bytes: u64)
    ensures
        exists|num: Seq<char>|
            #![trigger num.len()]
            size_text(bytes) == num + seq![' '] + size_unit(bytes) && num.len() > 0 && (bytes < kib()
                ==> crate::remote::all_digits(num)) && (bytes >= kib() ==> num.len() >= 3 && num[num.len()
                - 2] == '.' && crate::remote::all_digits(num.take(num.len() - 2))
                && crate::remote::is_digit(num.last())),
{
    if bytes < kib() {
        let num = decimal(bytes as nat);
        crate::remote::lemma_decimal_digits(bytes as nat);
        assert(size_text(bytes) =~= num + seq![' '] + size_unit(bytes));
        assert(num.len() > 0);
    } else {
        let unit = if bytes < mib() {
            kib()
        } else if bytes < gib() {
            mib()
        } else {
            gib()
        };
        let t = tenths(f64_round(bytes as nat), unit);
        let num = one_decimal(t);
        let whole = decimal(t / 10);
        crate::remote::lemma_decimal_digits(t / 10);
        crate::remote::lemma_digit_char_value(t % 10);
        assert(num.take(num.len() - 2) =~= whole);
        assert(size_text(bytes) =~= num + seq![' '] + size_unit(bytes));
        assert(num.len() > 0);
    }
}

} // verus!
