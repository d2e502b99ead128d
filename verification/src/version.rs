//! Release versions and their precedence, as Semantic Versioning orders
//! them: dot-separated numbers, an optional pre-release after `-` that sorts
//! below its release, and build metadata after `+` that does not count.

use vstd::prelude::*;
use crate::styles::is_ascii_digit;
use crate::text::{
    char_pred, chars_of, find_char, find_char_in, lemma_find_char_unique, lemma_trim_start_skip,
    str_equal, trim_start_by,
};

verus! {

/// Whether every character of `s` is a decimal digit.
pub open spec fn all_digits(s: Seq<char>) -> bool {
    forall|i: int| 0 <= i < s.len() ==> is_ascii_digit(#[trigger] s[i])
}

/// A numeric piece: one or more digits.
pub open spec fn is_numeric(p: Seq<char>) -> bool {
    p.len() > 0 && all_digits(p)
}

/// The pieces of `s` between the dots.
pub open spec fn version_pieces(s: Seq<char>) -> Seq<Seq<char>>
    decreases s.len(),
{
    let k = find_char(s, '.');
    if k < s.len() {
        seq![s.take(k as int)] + version_pieces(s.skip(k + 1 as int))
    } else {
        seq![s]
    }
}

/// Character strings in the order of their code points, a proper prefix
/// first: -1, 0 or 1.
pub open spec fn lex_order(a: Seq<char>, b: Seq<char>) -> int
    decreases a.len(),
{
    if a.len() == 0 && b.len() == 0 {
        0
    } else if a.len() == 0 {
        -1
    } else if b.len() == 0 {
        1
    } else if (a[0] as u32) < (b[0] as u32) {
        -1
    } else if (a[0] as u32) > (b[0] as u32) {
        1
    } else {
        lex_order(a.drop_first(), b.drop_first())
    }
}

/// A digit string without its leading zeros.
pub open spec fn strip_zeros(s: Seq<char>) -> Seq<char> {
    trim_start_by(s, char_pred('0'))
}

/// Digit strings compared as numbers: without leading zeros, the shorter is
/// smaller, and strings of one length compare digit by digit.
pub open spec fn num_order(a: Seq<char>, b: Seq<char>) -> int {
    let x = strip_zeros(a);
    let y = strip_zeros(b);
    if x.len() < y.len() {
        -1
    } else if x.len() > y.len() {
        1
    } else {
        lex_order(x, y)
    }
}

/// Pre-release identifiers: numeric ones compared as numbers and below all
/// others, the others compared by code points.
pub open spec fn ident_order(p: Seq<char>, q: Seq<char>) -> int {
    if is_numeric(p) && is_numeric(q) {
        num_order(p, q)
    } else if is_numeric(p) {
        -1
    } else if is_numeric(q) {
        1
    } else {
        lex_order(p, q)
    }
}

/// The first number of a version's numbers, `0` past their end.
pub open spec fn first_or_zero(a: Seq<Seq<char>>) -> Seq<char> {
    if a.len() > 0 {
        a[0]
    } else {
        seq!['0']
    }
}

/// The pieces after the first.
pub open spec fn rest_of(a: Seq<Seq<char>>) -> Seq<Seq<char>> {
    if a.len() > 0 {
        a.drop_first()
    } else {
        a
    }
}

/// Version numbers compared number by number from the left, missing
/// numbers counting as `0`.
pub open spec fn core_order(a: Seq<Seq<char>>, b: Seq<Seq<char>>) -> int
    decreases a.len() + b.len(),
{
    if a.len() == 0 && b.len() == 0 {
        0
    } else {
        let o = num_order(first_or_zero(a), first_or_zero(b));
        if o != 0 {
            o
        } else {
            core_order(rest_of(a), rest_of(b))
        }
    }
}

/// Pre-release identifier lists compared identifier by identifier; when
/// one is a prefix of the other, the shorter comes first.
pub open spec fn ident_list_order(a: Seq<Seq<char>>, b: Seq<Seq<char>>) -> int
    decreases a.len(),
{
    if a.len() == 0 && b.len() == 0 {
        0
    } else if a.len() == 0 {
        -1
    } else if b.len() == 0 {
        1
    } else {
        let o = ident_order(a[0], b[0]);
        if o != 0 {
            o
        } else {
            ident_list_order(a.drop_first(), b.drop_first())
        }
    }
}

/// A version: its numbers and, if any, its pre-release identifiers.
pub struct SemVer {
    pub core: Seq<Seq<char>>,
    pub pre: Option<Seq<Seq<char>>>,
}

/// A pre-release comes before the release itself.
pub open spec fn pre_order(a: Option<Seq<Seq<char>>>, b: Option<Seq<Seq<char>>>) -> int {
    match (a, b) {
        (None, None) => 0,
        (Some(_), None) => -1,
        (None, Some(_)) => 1,
        (Some(x), Some(y)) => ident_list_order(x, y),
    }
}

/// Version precedence: by the numbers, then by the pre-release.
pub open spec fn version_order(a: SemVer, b: SemVer) -> int {
    let o = core_order(a.core, b.core);
    if o != 0 {
        o
    } else {
        pre_order(a.pre, b.pre)
    }
}

/// `s` without its build metadata (from the first `+` on).
pub open spec fn without_build(s: Seq<char>) -> Seq<char> {
    s.take(find_char(s, '+') as int)
}

/// The version that `s` writes: numbers separated by dots, optionally `-`
/// and dot-separated non-empty pre-release identifiers, optionally `+` and
/// build metadata; `None` when `s` is not of that form.
pub open spec fn semver_of(s: Seq<char>) -> Option<SemVer> {
    let t = without_build(s);
    let k = find_char(t, '-');
    let core = version_pieces(t.take(k as int));
    let pre = if k < t.len() {
        Some(version_pieces(t.skip(k + 1 as int)))
    } else {
        None
    };
    let pre_ok = match pre {
        Some(p) => all_nonempty(p),
        None => true,
    };
    if all_numeric(core) && pre_ok {
        Some(SemVer { core, pre })
    } else {
        None
    }
}

/// Whether every piece is a number.
pub open spec fn all_numeric(ps: Seq<Seq<char>>) -> bool {
    forall|i: int| 0 <= i < ps.len() ==> is_numeric(#[trigger] ps[i])
}

/// Whether every piece is non-empty.
pub open spec fn all_nonempty(ps: Seq<Seq<char>>) -> bool {
    forall|i: int| 0 <= i < ps.len() ==> #[trigger] ps[i].len() > 0
}

/// The release `latest` is newer than `current`: when both are versions,
/// `current` comes before `latest`; otherwise they differ.
pub open spec fn is_newer_version(latest: Seq<char>, current: Seq<char>) -> bool {
    match (semver_of(latest), semver_of(current)) {
        (Some(l), Some(c)) => version_order(c, l) < 0,
        _ => latest != current,
    }
}

/// `o` is a three-way result.
pub open spec fn three_way(o: int) -> bool {
    -1 <= o <= 1
}

/// `lex_order` is antisymmetric (so reflexive).
proof fn lemma_lex_order_sym(a: Seq<char>, b: Seq<char>)
    ensures
        three_way(lex_order(a, b)),
        lex_order(a, b) == -lex_order(b, a),
    decreases a.len() + b.len(),
{
    if a.len() > 0 && b.len() > 0 {
        lemma_lex_order_sym(a.drop_first(), b.drop_first());
    }
}

/// `lex_order` is transitive.
proof fn lemma_lex_order_trans(a: Seq<char>, b: Seq<char>, c: Seq<char>)
    ensures
        lex_order(a, b) <= 0 && lex_order(b, c) <= 0 ==> lex_order(a, c) <= 0,
        lex_order(a, b) <= 0 && lex_order(b, c) <= 0 && lex_order(a, c) == 0 ==> lex_order(a, b)
            == 0 && lex_order(b, c) == 0,
    decreases a.len() + b.len() + c.len(),
{
    if a.len() > 0 && b.len() > 0 && c.len() > 0 {
        lemma_lex_order_trans(a.drop_first(), b.drop_first(), c.drop_first());
    }
}

/// The laws of `num_order`: a total preorder.
proof fn lemma_num_order(a: Seq<char>, b: Seq<char>, c: Seq<char>)
    ensures
        three_way(num_order(a, b)),
        num_order(a, a) == 0,
        num_order(a, b) == -num_order(b, a),
        num_order(a, b) <= 0 && num_order(b, c) <= 0 ==> num_order(a, c) <= 0,
        num_order(a, b) <= 0 && num_order(b, c) <= 0 && num_order(a, c) == 0 ==> num_order(a, b)
            == 0 && num_order(b, c) == 0,
{
    let (x, y, z) = (strip_zeros(a), strip_zeros(b), strip_zeros(c));
    lemma_lex_order_sym(x, x);
    lemma_lex_order_sym(x, y);
    lemma_lex_order_sym(x, z);
    lemma_lex_order_sym(y, z);
    lemma_lex_order_trans(x, y, z);
}

/// The laws of `ident_order`: a total preorder.
proof fn lemma_ident_order(a: Seq<char>, b: Seq<char>, c: Seq<char>)
    ensures
        three_way(ident_order(a, b)),
        ident_order(a, a) == 0,
        ident_order(a, b) == -ident_order(b, a),
        ident_order(a, b) <= 0 && ident_order(b, c) <= 0 ==> ident_order(a, c) <= 0,
        ident_order(a, b) <= 0 && ident_order(b, c) <= 0 && ident_order(a, c) == 0 ==> ident_order(
            a,
            b,
        ) == 0 && ident_order(b, c) == 0,
{
    lemma_num_order(a, b, c);
    lemma_lex_order_sym(a, a);
    lemma_lex_order_sym(a, b);
    lemma_lex_order_sym(a, c);
    lemma_lex_order_sym(b, c);
    lemma_lex_order_trans(a, b, c);
}

/// `core_order` is antisymmetric (so reflexive).
proof fn lemma_core_order_sym(a: Seq<Seq<char>>, b: Seq<Seq<char>>)
    ensures
        three_way(core_order(a, b)),
        core_order(a, b) == -core_order(b, a),
    decreases a.len() + b.len(),
{
    lemma_num_order(first_or_zero(a), first_or_zero(b), first_or_zero(b));
    lemma_num_order(first_or_zero(a), first_or_zero(a), first_or_zero(a));
    if a.len() > 0 || b.len() > 0 {
        lemma_core_order_sym(rest_of(a), rest_of(b));
    }
}

/// `core_order` is transitive.
proof fn lemma_core_order_trans(a: Seq<Seq<char>>, b: Seq<Seq<char>>, c: Seq<Seq<char>>)
    ensures
        core_order(a, b) <= 0 && core_order(b, c) <= 0 ==> core_order(a, c) <= 0,
        core_order(a, b) <= 0 && core_order(b, c) <= 0 && core_order(a, c) == 0 ==> core_order(
            a,
            b,
        ) == 0 && core_order(b, c) == 0,
    decreases a.len() + b.len() + c.len(),
{
    lemma_num_order(first_or_zero(a), first_or_zero(b), first_or_zero(c));
    lemma_core_order_sym(a, b);
    lemma_core_order_sym(b, c);
    lemma_core_order_sym(a, c);
    if a.len() > 0 || b.len() > 0 || c.len() > 0 {
        lemma_core_order_trans(rest_of(a), rest_of(b), rest_of(c));
    }
}

/// `ident_list_order` is antisymmetric (so reflexive).
proof fn lemma_ident_list_order_sym(a: Seq<Seq<char>>, b: Seq<Seq<char>>)
    ensures
        three_way(ident_list_order(a, b)),
        ident_list_order(a, b) == -ident_list_order(b, a),
    decreases a.len() + b.len(),
{
    if a.len() > 0 && b.len() > 0 {
        lemma_ident_order(a[0], b[0], b[0]);
        lemma_ident_list_order_sym(a.drop_first(), b.drop_first());
    }
}

/// `ident_list_order` is transitive.
proof fn lemma_ident_list_order_trans(a: Seq<Seq<char>>, b: Seq<Seq<char>>, c: Seq<Seq<char>>)
    ensures
        ident_list_order(a, b) <= 0 && ident_list_order(b, c) <= 0 ==> ident_list_order(a, c) <= 0,
        ident_list_order(a, b) <= 0 && ident_list_order(b, c) <= 0 && ident_list_order(a, c) == 0
            ==> ident_list_order(a, b) == 0 && ident_list_order(b, c) == 0,
    decreases a.len() + b.len() + c.len(),
{
    lemma_ident_list_order_sym(a, b);
    lemma_ident_list_order_sym(b, c);
    lemma_ident_list_order_sym(a, c);
    if a.len() > 0 && b.len() > 0 && c.len() > 0 {
        lemma_ident_order(a[0], b[0], c[0]);
        lemma_ident_list_order_trans(a.drop_first(), b.drop_first(), c.drop_first());
    }
}

/// The laws of `version_order`: a total preorder.
pub proof fn lemma_version_order(a: SemVer, b: SemVer, c: SemVer)
    ensures
        three_way(version_order(a, b)),
        version_order(a, a) == 0,
        version_order(a, b) == -version_order(b, a),
        version_order(a, b) <= 0 && version_order(b, c) <= 0 ==> version_order(a, c) <= 0,
        version_order(a, b) <= 0 && version_order(b, c) <= 0 && version_order(a, c) == 0
            ==> version_order(a, b) == 0 && version_order(b, c) == 0,
{
    lemma_core_order_sym(a.core, a.core);
    lemma_core_order_sym(a.core, b.core);
    lemma_core_order_sym(b.core, c.core);
    lemma_core_order_sym(a.core, c.core);
    lemma_core_order_trans(a.core, b.core, c.core);
    if let Some(x) = a.pre {
        lemma_ident_list_order_sym(x, x);
    }
    if let (Some(x), Some(y)) = (a.pre, b.pre) {
        lemma_ident_list_order_sym(x, y);
    }
    if let (Some(y), Some(z)) = (b.pre, c.pre) {
        lemma_ident_list_order_sym(y, z);
    }
    if let (Some(x), Some(z)) = (a.pre, c.pre) {
        lemma_ident_list_order_sym(x, z);
    }
    if let (Some(x), Some(y), Some(z)) = (a.pre, b.pre, c.pre) {
        lemma_ident_list_order_trans(x, y, z);
    }
}

/// An update never installs the running version again, nor, among
/// versions, an older one: no release is newer than itself; of two versions
/// at most one is newer than the other; and among versions being newer is
/// transitive.
pub proof fn lemma_never_downgrade(a: Seq<char>, b: Seq<char>, c: Seq<char>)
    ensures
        !is_newer_version(a, a),
        semver_of(a) is Some && semver_of(b) is Some && is_newer_version(a, b)
            ==> !is_newer_version(b, a),
        semver_of(a) is Some && semver_of(b) is Some && semver_of(c) is Some && is_newer_version(
            a,
            b,
        ) && is_newer_version(b, c) ==> is_newer_version(a, c),
{
    if let (Some(x), Some(y), Some(z)) = (semver_of(a), semver_of(b), semver_of(c)) {
        lemma_version_order(z, y, x);
        lemma_version_order(y, x, x);
    }
    if let (Some(x), Some(y)) = (semver_of(a), semver_of(b)) {
        lemma_version_order(y, x, x);
    }
    if let Some(x) = semver_of(a) {
        lemma_version_order(x, x, x);
    }
}

/// A pre-release comes before its own release: same numbers, one with
/// pre-release identifiers and one without.
pub proof fn lemma_pre_release_below_release(a: SemVer, b: SemVer)
    requires
        a.core == b.core,
        a.pre is Some,
        b.pre is None,
    ensures
        version_order(a, b) < 0,
        version_order(b, a) > 0,
{
    lemma_core_order_sym(a.core, b.core);
}

/// Build metadata does not count: appending `+` and anything to a text
/// without `+` reads the same version.
pub proof fn lemma_build_metadata_ignored(s: Seq<char>, build: Seq<char>)
    requires
        !s.contains('+'),
    ensures
        semver_of(s + seq!['+'] + build) == semver_of(s),
        semver_of(s) is Some ==> !is_newer_version(s + seq!['+'] + build, s),
{
    let t = s + seq!['+'] + build;
    assert forall|k: int| 0 <= k < s.len() implies t[k] != '+' by {
        assert(t[k] == s[k]);
    }
    lemma_find_char_unique(t, '+', s.len() as int);
    assert forall|k: int| 0 <= k < s.len() implies s[k] != '+' by {}
    lemma_find_char_unique(s, '+', s.len() as int);
    assert(t.take(s.len() as int) =~= s);
    assert(s.take(s.len() as int) =~= s);
    if let Some(x) = semver_of(s) {
        lemma_version_order(x, x, x);
    }
}

/// The number a decimal digit character stands for.
pub open spec fn digit_value(c: char) -> int {
    (c as u32) as int - 0x30
}

/// Ten to the power `n`.
pub open spec fn pow10(n: nat) -> nat
    decreases n,
{
    if n == 0 {
        1
    } else {
        10 * pow10((n - 1) as nat)
    }
}

/// The number that a string of decimal digits denotes (the empty string
/// denotes zero).
pub open spec fn decimal_value(s: Seq<char>) -> int
    decreases s.len(),
{
    if s.len() == 0 {
        0
    } else {
        digit_value(s[0]) * pow10((s.len() - 1) as nat) + decimal_value(s.drop_first())
    }
}

proof fn lemma_pow10_pos(n: nat)
    ensures
        pow10(n) >= 1,
    decreases n,
{
    if n > 0 {
        lemma_pow10_pos((n - 1) as nat);
    }
}

proof fn lemma_pow10_mono(m: nat, n: nat)
    requires
        m <= n,
    ensures
        pow10(m) <= pow10(n),
    decreases n,
{
    if n > m {
        lemma_pow10_mono(m, (n - 1) as nat);
        lemma_pow10_pos((n - 1) as nat);
    }
}

proof fn lemma_all_digits_rest(s: Seq<char>)
    requires
        all_digits(s),
        s.len() > 0,
    ensures
        all_digits(s.drop_first()),
        is_ascii_digit(s[0]),
{
    let r = s.drop_first();
    assert forall|i: int| 0 <= i < r.len() implies is_ascii_digit(#[trigger] r[i]) by {
        assert(r[i] == s[i + 1]);
    }
}

/// A digit string of length `n` denotes less than `10^n`, and at least
/// `10^(n-1)` when it does not start with `0`.
proof fn lemma_value_bounds(s: Seq<char>)
    requires
        all_digits(s),
    ensures
        0 <= decimal_value(s) < pow10(s.len()),
        s.len() > 0 && s[0] != '0' ==> decimal_value(s) >= pow10((s.len() - 1) as nat),
    decreases s.len(),
{
    if s.len() > 0 {
        let r = s.drop_first();
        lemma_all_digits_rest(s);
        lemma_value_bounds(r);
        let p = pow10((s.len() - 1) as nat) as int;
        let d = digit_value(s[0]);
        lemma_pow10_pos((s.len() - 1) as nat);
        assert(0 <= d <= 9);
        assert(0 <= d * p <= 9 * p) by (nonlinear_arith)
            requires
                0 <= d <= 9,
                p >= 0,
        ;
        if s[0] != '0' {
            vstd::utf8::char_u32_cast(s[0], s[0] as u32);
            vstd::utf8::char_u32_cast('0', 0x30);
            assert(d >= 1);
            assert(d * p >= p) by (nonlinear_arith)
                requires
                    d >= 1,
                    p >= 0,
            ;
        }
    }
}

/// Leading zeros change no number, and what is left starts with another
/// digit.
proof fn lemma_strip_zeros_value(s: Seq<char>)
    requires
        all_digits(s),
    ensures
        all_digits(strip_zeros(s)),
        decimal_value(strip_zeros(s)) == decimal_value(s),
        strip_zeros(s).len() > 0 ==> strip_zeros(s)[0] != '0',
    decreases s.len(),
{
    if s.len() > 0 && s[0] == '0' {
        let r = s.drop_first();
        lemma_all_digits_rest(s);
        lemma_strip_zeros_value(r);
        assert(strip_zeros(s) == strip_zeros(r));
        assert(digit_value(s[0]) == 0);
    } else {
        assert(strip_zeros(s) == s);
    }
}

/// For digit strings of one length, `lex_order` is the order of the numbers.
proof fn lemma_lex_order_by_value(x: Seq<char>, y: Seq<char>)
    requires
        all_digits(x),
        all_digits(y),
        x.len() == y.len(),
    ensures
        lex_order(x, y) < 0 <==> decimal_value(x) < decimal_value(y),
        lex_order(x, y) == 0 <==> decimal_value(x) == decimal_value(y),
        lex_order(x, y) > 0 <==> decimal_value(x) > decimal_value(y),
    decreases x.len(),
{
    lemma_lex_order_sym(x, y);
    if x.len() > 0 {
        let (rx, ry) = (x.drop_first(), y.drop_first());
        lemma_all_digits_rest(x);
        lemma_all_digits_rest(y);
        lemma_value_bounds(rx);
        lemma_value_bounds(ry);
        lemma_lex_order_by_value(rx, ry);
        let p = pow10((x.len() - 1) as nat) as int;
        let (dx, dy) = (digit_value(x[0]), digit_value(y[0]));
        let (vx, vy) = (decimal_value(rx), decimal_value(ry));
        assert(0 <= vx < p && 0 <= vy < p);
        if (x[0] as u32) < (y[0] as u32) {
            assert(dx * p + p <= dy * p) by (nonlinear_arith)
                requires
                    dx + 1 <= dy,
                    p >= 0,
            ;
        } else if (x[0] as u32) > (y[0] as u32) {
            assert(dy * p + p <= dx * p) by (nonlinear_arith)
                requires
                    dy + 1 <= dx,
                    p >= 0,
            ;
        } else {
            assert(dx == dy);
        }
    }
}

/// Numbers in a version compare as the numbers they denote: for digit
/// strings `a` and `b`, `num_order(a, b)` has the sign of the difference of
/// their values (so `19` comes before `20`, and `007` equals `7`).
pub proof fn lemma_num_order_by_value(a: Seq<char>, b: Seq<char>)
    requires
        all_digits(a),
        all_digits(b),
    ensures
        num_order(a, b) < 0 <==> decimal_value(a) < decimal_value(b),
        num_order(a, b) == 0 <==> decimal_value(a) == decimal_value(b),
        num_order(a, b) > 0 <==> decimal_value(a) > decimal_value(b),
{
    let (x, y) = (strip_zeros(a), strip_zeros(b));
    lemma_strip_zeros_value(a);
    lemma_strip_zeros_value(b);
    lemma_value_bounds(x);
    lemma_value_bounds(y);
    if x.len() < y.len() {
        lemma_pow10_mono(x.len(), (y.len() - 1) as nat);
    } else if x.len() > y.len() {
        lemma_pow10_mono(y.len(), (x.len() - 1) as nat);
    } else {
        lemma_lex_order_by_value(x, y);
    }
}

/// Lists of numbers whose first differing number is larger in `a` compare
/// `a` after `b`.
proof fn lemma_core_order_first_difference(a: Seq<Seq<char>>, b: Seq<Seq<char>>, i: int)
    requires
        all_numeric(a),
        all_numeric(b),
        0 <= i < a.len(),
        i < b.len(),
        forall|j: int| 0 <= j < i ==> decimal_value(#[trigger] a[j]) == decimal_value(b[j]),
        decimal_value(a[i]) > decimal_value(b[i]),
    ensures
        core_order(a, b) > 0,
    decreases i,
{
    assert(is_numeric(a[0]) && is_numeric(b[0]));
    lemma_num_order_by_value(a[0], b[0]);
    if i > 0 {
        let (ra, rb) = (a.drop_first(), b.drop_first());
        assert(decimal_value(a[0]) == decimal_value(b[0]));
        assert forall|k: int| 0 <= k < ra.len() implies is_numeric(#[trigger] ra[k]) by {
            assert(ra[k] == a[k + 1]);
        }
        assert forall|k: int| 0 <= k < rb.len() implies is_numeric(#[trigger] rb[k]) by {
            assert(rb[k] == b[k + 1]);
        }
        assert forall|j: int| 0 <= j < i - 1 implies decimal_value(#[trigger] ra[j])
            == decimal_value(rb[j]) by {
            assert(ra[j] == a[j + 1] && rb[j] == b[j + 1]);
        }
        lemma_core_order_first_difference(ra, rb, i - 1);
    }
}

/// A release whose first number that differs from the running version's is
/// larger is newer, and the running version is not newer than it (so
/// `0.20.0` is newer than `0.19.0`, and `1.0.0` than `0.99.0`).
pub proof fn lemma_newer_by_first_larger_number(latest: Seq<char>, current: Seq<char>, i: int)
    requires
        semver_of(latest) is Some,
        semver_of(current) is Some,
        0 <= i < semver_of(latest).unwrap().core.len(),
        i < semver_of(current).unwrap().core.len(),
        forall|j: int|
            0 <= j < i ==> decimal_value(#[trigger] semver_of(latest).unwrap().core[j])
                == decimal_value(semver_of(current).unwrap().core[j]),
        decimal_value(semver_of(latest).unwrap().core[i]) > decimal_value(
            semver_of(current).unwrap().core[i],
        ),
    ensures
        is_newer_version(latest, current),
        !is_newer_version(current, latest),
{
    let (l, c) = (semver_of(latest).unwrap(), semver_of(current).unwrap());
    assert(all_numeric(l.core) && all_numeric(c.core));
    lemma_core_order_first_difference(l.core, c.core, i);
    lemma_core_order_sym(l.core, c.core);
}

/// Pre-release identifiers: numeric ones compare as the numbers they
/// denote, and come before every identifier that is not numeric.
pub proof fn lemma_ident_order_by_value(p: Seq<char>, q: Seq<char>)
    ensures
        is_numeric(p) && is_numeric(q) ==> (ident_order(p, q) < 0 <==> decimal_value(p)
            < decimal_value(q)) && (ident_order(p, q) == 0 <==> decimal_value(p) == decimal_value(
            q,
        )),
        is_numeric(p) && !is_numeric(q) ==> ident_order(p, q) < 0 && ident_order(q, p) > 0,
{
    if is_numeric(p) && is_numeric(q) {
        lemma_num_order_by_value(p, q);
    }
}

/// The views of a list of pieces.
pub open spec fn pieces_view(v: Seq<Vec<char>>) -> Seq<Seq<char>> {
    v.map_values(|p: Vec<char>| p@)
}

/// A version as read from its text.
pub struct Version {
    pub core: Vec<Vec<char>>,
    pub pre: Option<Vec<Vec<char>>>,
}

impl View for Version {
    type V = SemVer;

    open spec fn view(&self) -> SemVer {
        SemVer {
            core: pieces_view(self.core@),
            pre: match self.pre {
                Some(p) => Some(pieces_view(p@)),
                None => None,
            },
        }
    }
}

/// The characters `v[lo..hi]`.
fn chars_range(v: &Vec<char>, lo: usize, hi: usize) -> (r: Vec<char>)
    requires
        lo <= hi <= v@.len(),
    ensures
        r@ == v@.subrange(lo as int, hi as int),
{
    let mut r: Vec<char> = Vec::new();
    let mut i = lo;
    while i < hi
        invariant
            lo <= i <= hi <= v@.len(),
            r@ == v@.subrange(lo as int, i as int),
        decreases hi - i,
    {
        r.push(v[i]);
        i = i + 1;
        assert(r@ =~= v@.subrange(lo as int, i as int));
    }
    r
}

/// The pieces of `v[lo..hi]` between the dots.
fn split_pieces(v: &Vec<char>, lo: usize, hi: usize) -> (r: Vec<Vec<char>>)
    requires
        lo <= hi <= v@.len(),
    ensures
        pieces_view(r@) == version_pieces(v@.subrange(lo as int, hi as int)),
{
    let ghost w = v@.subrange(lo as int, hi as int);
    let mut out: Vec<Vec<char>> = Vec::new();
    let mut pos = lo;
    assert(w.skip(0) =~= w);
    loop
        invariant
            lo <= pos <= hi <= v@.len(),
            w == v@.subrange(lo as int, hi as int),
            version_pieces(w) == pieces_view(out@) + version_pieces(v@.subrange(pos as int, hi as int)),
        decreases hi - pos,
    {
        let end = find_char_in(v, pos, hi, '.');
        let ghost rest = v@.subrange(pos as int, hi as int);
        let piece = chars_range(v, pos, end);
        proof {
            assert(rest.take(end - pos) =~= piece@);
            if end < hi {
                assert(rest.skip(end - pos + 1) =~= v@.subrange(end + 1, hi as int));
            } else {
                assert(rest =~= piece@);
            }
        }
        let ghost before = out@;
        out.push(piece);
        assert(pieces_view(out@) =~= pieces_view(before).push(v@.subrange(pos as int, end as int)));
        if end == hi {
            return out;
        }
        pos = end + 1;
    }
}

/// Whether every piece is a number.
fn all_numeric_of(ps: &Vec<Vec<char>>) -> (r: bool)
    ensures
        r == all_numeric(pieces_view(ps@)),
{
    let mut i: usize = 0;
    while i < ps.len()
        invariant
            i <= ps@.len(),
            forall|k: int| 0 <= k < i ==> is_numeric(#[trigger] pieces_view(ps@)[k]),
        decreases ps@.len() - i,
    {
        assert(pieces_view(ps@)[i as int] == ps@[i as int]@);
        if !is_numeric_piece(&ps[i]) {
            return false;
        }
        i = i + 1;
    }
    true
}

/// Whether every piece is non-empty.
fn all_nonempty_of(ps: &Vec<Vec<char>>) -> (r: bool)
    ensures
        r == all_nonempty(pieces_view(ps@)),
{
    let mut i: usize = 0;
    while i < ps.len()
        invariant
            i <= ps@.len(),
            forall|k: int| 0 <= k < i ==> #[trigger] pieces_view(ps@)[k].len() > 0,
        decreases ps@.len() - i,
    {
        assert(pieces_view(ps@)[i as int] == ps@[i as int]@);
        if ps[i].len() == 0 {
            return false;
        }
        i = i + 1;
    }
    true
}

/// Reads a version: numbers separated by dots, optionally `-` and
/// pre-release identifiers, optionally `+` and build metadata.
pub fn parse_version(s: &str) -> (r: Option<Version>)
    ensures
        match r {
            Some(x) => semver_of(s@) == Some(x@),
            None => semver_of(s@) is None,
        },
{
    let v = chars_of(s);
    let n = v.len();
    let plus = find_char_in(&v, 0, n, '+');
    let dash = find_char_in(&v, 0, plus, '-');
    let ghost t = without_build(s@);
    proof {
        assert(v@.subrange(0, n as int) =~= v@);
        assert(t =~= v@.subrange(0, plus as int));
        assert(t.take(dash as int) =~= v@.subrange(0, dash as int));
        if dash < plus {
            assert(t.skip(dash + 1) =~= v@.subrange(dash + 1, plus as int));
        }
    }
    let core = split_pieces(&v, 0, dash);
    assert(pieces_view(core@) == version_pieces(t.take(dash as int)));
    if !all_numeric_of(&core) {
        return None;
    }
    if dash < plus {
        let pre = split_pieces(&v, dash + 1, plus);
        assert(pieces_view(pre@) == version_pieces(t.skip(dash + 1)));
        if !all_nonempty_of(&pre) {
            return None;
        }
        Some(Version { core, pre: Some(pre) })
    } else {
        Some(Version { core, pre: None })
    }
}

/// `lex_order` of `a[i..]` and `b[j..]`.
fn lex_order_from(a: &Vec<char>, i: usize, b: &Vec<char>, j: usize) -> (r: i8)
    requires
        i <= a@.len(),
        j <= b@.len(),
    ensures
        r as int == lex_order(a@.skip(i as int), b@.skip(j as int)),
{
    let mut x = i;
    let mut y = j;
    loop
        invariant
            i <= x <= a@.len(),
            j <= y <= b@.len(),
            lex_order(a@.skip(i as int), b@.skip(j as int)) == lex_order(
                a@.skip(x as int),
                b@.skip(y as int),
            ),
        decreases a@.len() - x,
    {
        if x == a.len() && y == b.len() {
            return 0;
        }
        if x == a.len() {
            return -1;
        }
        if y == b.len() {
            return 1;
        }
        let u = a[x] as u32;
        let w = b[y] as u32;
        assert(a@.skip(x as int)[0] == a@[x as int]);
        assert(b@.skip(y as int)[0] == b@[y as int]);
        if u < w {
            return -1;
        }
        if u > w {
            return 1;
        }
        assert(a@.skip(x as int).drop_first() =~= a@.skip(x + 1));
        assert(b@.skip(y as int).drop_first() =~= b@.skip(y + 1));
        x = x + 1;
        y = y + 1;
    }
}

/// The number of leading zeros of `a`.
fn leading_zeros(a: &Vec<char>) -> (r: usize)
    ensures
        r <= a@.len(),
        a@.skip(r as int) == strip_zeros(a@),
{
    let mut i: usize = 0;
    while i < a.len() && a[i] == '0'
        invariant
            i <= a@.len(),
            forall|k: int| 0 <= k < i ==> #[trigger] a@[k] == '0',
        decreases a@.len() - i,
    {
        i = i + 1;
    }
    proof {
        let p = char_pred('0');
        assert forall|k: int| 0 <= k < i implies p(#[trigger] a@[k]) by {}
        lemma_trim_start_skip(a@, i as int, p);
        assert(a@.subrange(i as int, a@.len() as int) =~= a@.skip(i as int));
        assert(trim_start_by(a@.skip(i as int), p) == a@.skip(i as int));
    }
    i
}

/// `num_order` of two digit strings.
fn num_order_of(a: &Vec<char>, b: &Vec<char>) -> (r: i8)
    ensures
        r as int == num_order(a@, b@),
{
    let za = leading_zeros(a);
    let zb = leading_zeros(b);
    let la = a.len() - za;
    let lb = b.len() - zb;
    if la < lb {
        -1
    } else if la > lb {
        1
    } else {
        lex_order_from(a, za, b, zb)
    }
}

/// Whether `p` is numeric.
fn is_numeric_piece(p: &Vec<char>) -> (r: bool)
    ensures
        r == is_numeric(p@),
{
    if p.len() == 0 {
        return false;
    }
    let mut j: usize = 0;
    while j < p.len()
        invariant
            j <= p@.len(),
            forall|k: int| 0 <= k < j ==> is_ascii_digit(#[trigger] p@[k]),
        decreases p@.len() - j,
    {
        let u = p[j] as u32;
        if u < 0x30 || u > 0x39 {
            assert(!is_ascii_digit(p@[j as int]));
            return false;
        }
        j = j + 1;
    }
    true
}

/// `ident_order` of two pre-release identifiers.
fn ident_order_of(p: &Vec<char>, q: &Vec<char>) -> (r: i8)
    ensures
        r as int == ident_order(p@, q@),
{
    let np = is_numeric_piece(p);
    let nq = is_numeric_piece(q);
    if np && nq {
        num_order_of(p, q)
    } else if np {
        -1
    } else if nq {
        1
    } else {
        let r = lex_order_from(p, 0, q, 0);
        assert(p@.skip(0) =~= p@);
        assert(q@.skip(0) =~= q@);
        r
    }
}

/// The pieces of `a` from position `i` on.
pub open spec fn pieces_from(a: Seq<Seq<char>>, i: int) -> Seq<Seq<char>> {
    if i < a.len() {
        a.skip(i)
    } else {
        Seq::empty()
    }
}

/// `core_order` of two lists of numbers.
fn core_order_of(a: &Vec<Vec<char>>, b: &Vec<Vec<char>>) -> (r: i8)
    ensures
        r as int == core_order(pieces_view(a@), pieces_view(b@)),
{
    let zero: Vec<char> = vec!['0'];
    let n = if a.len() > b.len() {
        a.len()
    } else {
        b.len()
    };
    let ghost pa = pieces_view(a@);
    let ghost pb = pieces_view(b@);
    let mut i: usize = 0;
    assert(pieces_from(pa, 0) =~= pa);
    assert(pieces_from(pb, 0) =~= pb);
    while i < n
        invariant
            pa == pieces_view(a@),
            pb == pieces_view(b@),
            zero@ == seq!['0'],
            n >= a@.len(),
            n >= b@.len(),
            n == a@.len() || n == b@.len(),
            i <= n,
            core_order(pa, pb) == core_order(pieces_from(pa, i as int), pieces_from(pb, i as int)),
        decreases n - i,
    {
        let x = if i < a.len() {
            &a[i]
        } else {
            &zero
        };
        let y = if i < b.len() {
            &b[i]
        } else {
            &zero
        };
        proof {
            let ra = pieces_from(pa, i as int);
            let rb = pieces_from(pb, i as int);
            assert(first_or_zero(ra) == x@);
            assert(first_or_zero(rb) == y@);
            assert(rest_of(ra) =~= pieces_from(pa, i + 1));
            assert(rest_of(rb) =~= pieces_from(pb, i + 1));
            assert(ra.len() > 0 || rb.len() > 0);
        }
        let o = num_order_of(x, y);
        if o != 0 {
            return o;
        }
        i = i + 1;
    }
    assert(pieces_from(pa, n as int).len() == 0);
    assert(pieces_from(pb, n as int).len() == 0);
    0
}

/// `ident_list_order` of two lists of pre-release identifiers.
fn ident_list_order_of(a: &Vec<Vec<char>>, b: &Vec<Vec<char>>) -> (r: i8)
    ensures
        r as int == ident_list_order(pieces_view(a@), pieces_view(b@)),
{
    let ghost pa = pieces_view(a@);
    let ghost pb = pieces_view(b@);
    let mut i: usize = 0;
    assert(pa.skip(0) =~= pa);
    assert(pb.skip(0) =~= pb);
    loop
        invariant
            pa == pieces_view(a@),
            pb == pieces_view(b@),
            i <= a@.len(),
            i <= b@.len(),
            ident_list_order(pa, pb) == ident_list_order(pa.skip(i as int), pb.skip(i as int)),
        decreases a@.len() - i,
    {
        if i == a.len() && i == b.len() {
            return 0;
        }
        if i == a.len() {
            return -1;
        }
        if i == b.len() {
            return 1;
        }
        assert(pa.skip(i as int)[0] == a@[i as int]@);
        assert(pb.skip(i as int)[0] == b@[i as int]@);
        let o = ident_order_of(&a[i], &b[i]);
        if o != 0 {
            return o;
        }
        assert(pa.skip(i as int).drop_first() =~= pa.skip(i + 1));
        assert(pb.skip(i as int).drop_first() =~= pb.skip(i + 1));
        i = i + 1;
    }
}

/// `version_order` of two versions.
pub fn version_order_of(a: &Version, b: &Version) -> (r: i8)
    ensures
        r as int == version_order(a@, b@),
{
    let o = core_order_of(&a.core, &b.core);
    if o != 0 {
        return o;
    }
    match (&a.pre, &b.pre) {
        (None, None) => 0,
        (Some(_), None) => -1,
        (None, Some(_)) => 1,
        (Some(x), Some(y)) => ident_list_order_of(x, y),
    }
}

/// Whether the release version `latest` is newer than `current`.
pub fn is_newer(latest: &str, current: &str) -> (r: bool)
    ensures
        r == is_newer_version(latest@, current@),
{
    match (parse_version(latest), parse_version(current)) {
        (Some(l), Some(c)) => version_order_of(&c, &l) < 0,
        _ => !str_equal(latest, current),
    }
}

} // verus!
