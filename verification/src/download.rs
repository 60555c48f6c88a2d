//! MaxMind credentials, the GeoLite2 download location, download progress
//! text, and the choice of the database inside a downloaded archive.

use vstd::prelude::*;

use crate::error::AppError;
use crate::text::{decimal, non_blank_text, option_text, present_text, push_decimal, trimmed};

verus! {

/// Where the GeoLite2 City archive is downloaded from.
pub const GEOLITE2_CITY_DOWNLOAD_URL: &'static str =
    "https://download.maxmind.com/geoip/databases/GeoLite2-City/download?suffix=tar.gz";

/// A MaxMind account id and license key, both trimmed and non-blank.
pub struct MaxMindCredentials {
    account_id: String,
    license_key: String,
}

/// The debug text of credentials, which never shows either secret.
pub open spec fn redacted_credentials_text() -> Seq<char> {
    "MaxMindCredentials { account_id: \"<redacted>\", license_key: \"<redacted>\" }"@
}

/// A credential value is present: trimmed and non-blank.
pub open spec fn is_present_value(v: Seq<char>) -> bool {
    v.len() > 0 && trimmed(v) == v
}

impl MaxMindCredentials {
    /// Every credentials value holds two present values.
    #[verifier::type_invariant]
    spec fn well_formed(self) -> bool {
        is_present_value(self.account_id@) && is_present_value(self.license_key@)
    }

    /// The text of the account id.
    pub closed spec fn spec_account_id(self) -> Seq<char> {
        self.account_id@
    }

    /// The text of the license key.
    pub closed spec fn spec_license_key(self) -> Seq<char> {
        self.license_key@
    }

    /// What `new` gives for the two optional values: both present after
    /// trimming yields credentials, both absent or blank yields nothing, and
    /// one without the other is an error.
    pub open spec fn spec_new(
        account_id: Option<String>,
        license_key: Option<String>,
    ) -> Result<Option<(Seq<char>, Seq<char>)>, AppError> {
        match (present_text(account_id), present_text(license_key)) {
            (Some(a), Some(k)) => Ok(Some((a, k))),
            (None, None) => Ok(None),
            _ => Err(AppError::MissingCredentials),
        }
    }

    /// Builds credentials from optional values, trimming each and treating a
    /// blank value as absent.
    pub fn new(account_id: Option<String>, license_key: Option<String>) -> (r: Result<
        Option<Self>,
        AppError,
    >)
        ensures
            match Self::spec_new(account_id, license_key) {
                Ok(Some((a, k))) => r matches Ok(Some(c)) && c.spec_account_id() == a
                    && c.spec_license_key() == k,
                Ok(None) => r matches Ok(None),
                Err(e) => r == Err::<Option<Self>, AppError>(e),
            },
    {
        let account_id = match account_id {
            Some(value) => {
                proof {
                    crate::text::lemma_trim_idempotent(value@);
                }
                non_blank_text(value.as_str())
            },
            None => None,
        };
        let license_key = match license_key {
            Some(value) => {
                proof {
                    crate::text::lemma_trim_idempotent(value@);
                }
                non_blank_text(value.as_str())
            },
            None => None,
        };
        match (account_id, license_key) {
            (Some(account_id), Some(license_key)) => Ok(
                Some(MaxMindCredentials { account_id, license_key }),
            ),
            (None, None) => Ok(None),
            _ => Err(AppError::MissingCredentials),
        }
    }

    /// The credentials a download needs: as `new`, with absent credentials
    /// reported as missing.
    pub fn required(account_id: Option<String>, license_key: Option<String>) -> (r: Result<
        Self,
        AppError,
    >)
        ensures
            match Self::spec_new(account_id, license_key) {
                Ok(Some((a, k))) => r matches Ok(c) && c.spec_account_id() == a
                    && c.spec_license_key() == k,
                _ => r == Err::<Self, AppError>(AppError::MissingCredentials),
            },
    {
        match Self::new(account_id, license_key) {
            Ok(Some(credentials)) => Ok(credentials),
            Ok(None) => Err(AppError::MissingCredentials),
            Err(error) => Err(error),
        }
    }

    /// The account id: trimmed and non-blank.
    pub fn account_id(&self) -> (r: &str)
        ensures
            r@ == self.spec_account_id(),
            is_present_value(r@),
    {
        proof {
            use_type_invariant(self);
        }
        self.account_id.as_str()
    }

    /// The license key: trimmed and non-blank.
    pub fn license_key(&self) -> (r: &str)
        ensures
            r@ == self.spec_license_key(),
            is_present_value(r@),
    {
        proof {
            use_type_invariant(self);
        }
        self.license_key.as_str()
    }

    /// The debug text of the credentials: both secrets are redacted.
    pub fn debug_text(&self) -> (text: String)
        ensures
            text@ == redacted_credentials_text(),
    {
        String::from_str(
            "MaxMindCredentials { account_id: \"<redacted>\", license_key: \"<redacted>\" }",
        )
    }
}

impl Clone for MaxMindCredentials {
    fn clone(&self) -> (c: Self)
        ensures
            c.spec_account_id() == self.spec_account_id(),
            c.spec_license_key() == self.spec_license_key(),
    {
        proof {
            use_type_invariant(self);
        }
        MaxMindCredentials {
            account_id: self.account_id.clone(),
            license_key: self.license_key.clone(),
        }
    }
}

/// The URL the GeoLite2 City archive is downloaded from; the credentials
/// travel in the request's authorization, never in the URL.
pub fn download_url(_credentials: &MaxMindCredentials) -> (url: String)
    ensures
        url@ == GEOLITE2_CITY_DOWNLOAD_URL@,
{
    String::from_str(GEOLITE2_CITY_DOWNLOAD_URL)
}


/// Credentials are all or nothing: `new` fails exactly when one value is
/// present and the other is absent or blank.
pub proof fn lemma_credentials_all_or_nothing(
    account_id: Option<String>,
    license_key: Option<String>,
)
    ensures
        MaxMindCredentials::spec_new(account_id, license_key) is Err <==> (present_text(
            account_id,
        ) is Some != present_text(license_key) is Some),
{
}

/// `2` to the power `n`.
pub open spec fn pow2(n: nat) -> nat
    decreases n,
{
    if n == 0 {
        1
    } else {
        2 * pow2((n - 1) as nat)
    }
}

/// `n / d` rounded to the nearest integer, a tie going to the even one.
pub open spec fn div_round_even(n: nat, d: nat) -> nat
    recommends
        d > 0,
{
    let q = n / d;
    let r = n % d;
    if 2 * r > d || (2 * r == d && q % 2 == 1) {
        q + 1
    } else {
        q
    }
}

/// How many low bits of `b` an `f64` cannot hold: `b >> s` has at most 53
/// significant bits.
pub open spec fn f64_shift(b: nat) -> nat
    decreases b,
{
    if b < 0x20_0000_0000_0000 {
        0
    } else {
        1 + f64_shift(b / 2)
    }
}

/// The value of the `f64` nearest to `b` (`b as f64`, which rounds to
/// nearest, ties to even).
pub open spec fn f64_value(b: nat) -> nat {
    let s = f64_shift(b);
    div_round_even(b, pow2(s)) * pow2(s)
}

/// How many times a byte count is divided by 1024 before it is shown: once
/// per unit up to GiB, while it is at least 1024.
pub open spec fn unit_index(b: nat) -> nat {
    if b < 1024 {
        0
    } else if b < 0x10_0000 {
        1
    } else if b < 0x4000_0000 {
        2
    } else {
        3
    }
}

/// 1024 to the power of a unit index.
pub open spec fn unit_scale(k: nat) -> nat {
    if k == 0 {
        1
    } else if k == 1 {
        1024
    } else if k == 2 {
        0x10_0000
    } else {
        0x4000_0000
    }
}

/// The name of a unit.
pub open spec fn unit_name(k: nat) -> Seq<char> {
    if k == 1 {
        "KiB"@
    } else if k == 2 {
        "MiB"@
    } else {
        "GiB"@
    }
}

/// A byte count in its unit, in tenths, rounded as `{:.1}` rounds the
/// exact value of the `f64` quotient: to nearest, a tie going to even.
pub open spec fn tenths_in_unit(b: nat) -> nat {
    div_round_even(f64_value(b) * 10, unit_scale(unit_index(b)))
}

/// The progress text of a byte count: whole bytes below 1 KiB, otherwise the
/// value in the largest unit up to GiB that leaves it at least 1, with one
/// decimal.
pub open spec fn human_bytes_text(b: nat) -> Seq<char> {
    if b < 1024 {
        decimal(b) + " B"@
    } else {
        let t = tenths_in_unit(b);
        decimal(t / 10) + "."@ + decimal(t % 10) + " "@ + unit_name(unit_index(b))
    }
}

/// `f64_shift` is at most `j` below `2^53 * 2^j`.
proof fn lemma_f64_shift_bound(b: nat, j: nat)
    requires
        b < 0x20_0000_0000_0000 * pow2(j),
    ensures
        f64_shift(b) <= j,
    decreases b,
{
    if b >= 0x20_0000_0000_0000 {
        if j == 0 {
            assert(pow2(0) == 1);
        } else {
            lemma_f64_shift_bound(b / 2, (j - 1) as nat);
        }
    }
}

/// `pow2` grows: `pow2(n) >= 1`.
proof fn lemma_pow2_positive(n: nat)
    ensures
        pow2(n) >= 1,
    decreases n,
{
    if n > 0 {
        lemma_pow2_positive((n - 1) as nat);
    }
}

/// The `f64_shift` of a byte count.
fn f64_shift_of(b: u64) -> (s: u32)
    ensures
        s == f64_shift(b as nat),
        s <= 11,
    decreases b,
{
    proof {
        reveal_with_fuel(pow2, 12);
        assert(pow2(11) == 2048);
        lemma_f64_shift_bound(b as nat, 11);
    }
    if b < 0x20_0000_0000_0000 {
        0
    } else {
        let s = f64_shift_of(b / 2);
        s + 1
    }
}

/// `2` to the power `n`, for `n <= 11`.
fn pow2_of(n: u32) -> (p: u128)
    requires
        n <= 11,
    ensures
        p == pow2(n as nat),
        1 <= p <= 2048,
{
    let mut p: u128 = 1;
    let mut i: u32 = 0;
    while i < n
        invariant
            i <= n <= 11,
            p == pow2(i as nat),
            1 <= p,
            pow2(i as nat) <= 2048,
        decreases n - i,
    {
        proof {
            reveal_with_fuel(pow2, 12);
            assert(pow2(11) == 2048);
            lemma_pow2_monotone((i + 1) as nat, 11);
        }
        p = p * 2;
        i = i + 1;
    }
    p
}

/// `pow2` is monotone.
proof fn lemma_pow2_monotone(a: nat, b: nat)
    requires
        a <= b,
    ensures
        pow2(a) <= pow2(b),
    decreases b,
{
    lemma_pow2_positive(b);
    if a < b {
        lemma_pow2_monotone(a, (b - 1) as nat);
    }
}

/// `n / d` rounded to nearest, a tie going to even.
fn div_round_even_of(n: u128, d: u128) -> (q: u128)
    requires
        d > 0,
        n <= 0xffff_ffff_ffff_ffff_ffff_ffff_ffff_fff0,
    ensures
        q == div_round_even(n as nat, d as nat),
{
    let q = n / d;
    let r = n % d;
    proof {
        assert(q * d + r == n && r < d) by (nonlinear_arith)
            requires
                q == n / d,
                r == n % d,
                d > 0,
        ;
        assert(q <= n) by (nonlinear_arith)
            requires
                q * d + r == n,
                d >= 1,
                r >= 0,
                q >= 0,
        ;
    }
    if r > d - r || (r == d - r && q % 2 == 1) {
        q + 1
    } else {
        q
    }
}

/// The value of `b as f64`, as an integer.
fn f64_value_of(b: u64) -> (v: u128)
    ensures
        v == f64_value(b as nat),
        v <= 0x1_0000_0000_0000_0800,
{
    let s = f64_shift_of(b);
    let p = pow2_of(s);
    let q = div_round_even_of(b as u128, p);
    proof {
        let qq = (b as nat) / (p as nat);
        let rr = (b as nat) % (p as nat);
        assert(qq * p + rr == b && rr < p) by (nonlinear_arith)
            requires
                qq == (b as nat) / (p as nat),
                rr == (b as nat) % (p as nat),
                p > 0,
        ;
        assert(q <= qq + 1);
        assert(q * p <= b + p) by (nonlinear_arith)
            requires
                q <= qq + 1,
                qq * p + rr == b,
                rr >= 0,
                p >= 1,
        ;
    }
    q * p
}

/// The progress text of a byte count: `"512 B"`, `"1.5 KiB"`, `"2.0 MiB"`.
/// The value shown is that of the byte count as an `f64`, divided by 1024
/// once per unit and written with one decimal; the arithmetic here is exact
/// on integers.
pub fn human_bytes(bytes: u64) -> (text: String)
    ensures
        text@ == human_bytes_text(bytes as nat),
{
    let mut text = String::new();
    if bytes < 1024 {
        push_decimal(&mut text, bytes as u128);
        text.append(" B");
        return text;
    }
    let scale: u128;
    let unit: &'static str;
    if bytes < 0x10_0000 {
        scale = 1024;
        unit = "KiB";
    } else if bytes < 0x4000_0000 {
        scale = 0x10_0000;
        unit = "MiB";
    } else {
        scale = 0x4000_0000;
        unit = "GiB";
    }
    let value = f64_value_of(bytes);
    let tenths = div_round_even_of(value * 10, scale);
    push_decimal(&mut text, tenths / 10);
    text.append(".");
    push_decimal(&mut text, tenths % 10);
    text.append(" ");
    text.append(unit);
    assert(text@ =~= human_bytes_text(bytes as nat));
    text
}

/// The byte `/`, which separates path components.
pub open spec fn slash() -> u8 {
    47
}

/// The byte `.`.
pub open spec fn dot() -> u8 {
    46
}

/// The extension of a database file: the bytes of `mmdb`.
pub open spec fn mmdb_extension() -> Seq<u8> {
    seq![109u8, 109u8, 100u8, 98u8]
}

/// The bytes of `p` after its last `sep` (all of `p` when it has none).
pub open spec fn last_piece(p: Seq<u8>, sep: u8) -> Seq<u8>
    decreases p.len(),
{
    if p.len() == 0 || p.last() == sep {
        Seq::empty()
    } else {
        last_piece(p.drop_last(), sep).push(p.last())
    }
}

/// The file name of a Unix path, as `Path::file_name` gives it: its last
/// component, where empty and `.` components are skipped, and none when that
/// component is `..` or when there is no normal component at the end.
pub open spec fn file_name(p: Seq<u8>) -> Option<Seq<u8>>
    decreases p.len(),
{
    let piece = last_piece(p, slash());
    if piece.len() < p.len() {
        if piece.len() == 0 || piece == seq![dot()] {
            file_name(p.subrange(0, p.len() - piece.len() - 1))
        } else if piece == seq![dot(), dot()] {
            None
        } else {
            Some(piece)
        }
    } else if piece.len() == 0 || piece == seq![dot()] || piece == seq![dot(), dot()] {
        None
    } else {
        Some(piece)
    }
}

/// The extension of a file name, as `Path::extension` gives it: the bytes
/// after the last `.`, none when there is no `.` or when the only `.` starts
/// the name.
pub open spec fn extension(name: Seq<u8>) -> Option<Seq<u8>> {
    let after = last_piece(name, dot());
    if after.len() + 1 < name.len() {
        Some(after)
    } else {
        None
    }
}

/// Whether an archive entry with this path holds the database: its file
/// name has the extension `mmdb`.
pub open spec fn is_database_path_spec(p: Seq<u8>) -> bool {
    match file_name(p) {
        Some(name) => extension(name) == Some(mmdb_extension()),
        None => false,
    }
}

/// The last piece of `p + t` is `t` when `t` holds no separator and `p` is
/// empty or ends with one.
proof fn lemma_last_piece_after_separator(p: Seq<u8>, t: Seq<u8>, sep: u8)
    requires
        forall|i: int| 0 <= i < t.len() ==> t[i] != sep,
        p.len() == 0 || p.last() == sep,
    ensures
        last_piece(p + t, sep) == t,
    decreases t.len(),
{
    if t.len() == 0 {
        assert(p + t =~= p);
    } else {
        assert((p + t).drop_last() =~= p + t.drop_last());
        assert((p + t).last() == t.last());
        lemma_last_piece_after_separator(p, t.drop_last(), sep);
        assert(t.drop_last().push(t.last()) =~= t);
    }
}

/// The last piece of `p` is a suffix of `p` without a separator, and the
/// byte before it, if any, is the separator.
proof fn lemma_last_piece_is_suffix(p: Seq<u8>, sep: u8)
    ensures
        last_piece(p, sep).len() <= p.len(),
        last_piece(p, sep) == p.subrange(p.len() - last_piece(p, sep).len(), p.len() as int),
        last_piece(p, sep).len() < p.len() ==> p[p.len() - last_piece(p, sep).len() - 1] == sep,
    decreases p.len(),
{
    if p.len() == 0 {
        assert(p.subrange(0, 0) =~= Seq::<u8>::empty());
    } else if p.last() == sep {
        assert(p.subrange(p.len() as int, p.len() as int) =~= Seq::<u8>::empty());
    } else {
        let q = p.drop_last();
        lemma_last_piece_is_suffix(q, sep);
        let l = last_piece(q, sep).len();
        assert(q.subrange(q.len() - l, q.len() as int).push(p.last()) =~= p.subrange(
            p.len() - (l + 1),
            p.len() as int,
        ));
        if l < q.len() {
            assert(p[p.len() - (l + 1) - 1] == q[q.len() - l - 1]);
        }
    }
}

/// A path whose last component is a non-empty stem followed by `.mmdb`
/// names a database, whatever directories come before it.
pub proof fn lemma_mmdb_file_is_database(dir: Seq<u8>, stem: Seq<u8>)
    requires
        dir.len() == 0 || dir.last() == slash(),
        stem.len() > 0,
        forall|i: int| 0 <= i < stem.len() ==> stem[i] != slash(),
    ensures
        is_database_path_spec(dir + stem + seq![dot()] + mmdb_extension()),
{
    let dotted = stem + seq![dot()];
    let name = dotted + mmdb_extension();
    let p = dir + stem + seq![dot()] + mmdb_extension();
    assert(p =~= dir + name);
    assert forall|i: int| 0 <= i < name.len() implies name[i] != slash() by {
        if i >= stem.len() {
            assert(name[i] == seq![46u8, 109u8, 109u8, 100u8, 98u8][i - stem.len()]);
        }
    }
    lemma_last_piece_after_separator(dir, name, slash());
    assert(name.len() == stem.len() + 5);
    assert(name != seq![dot()]);
    assert(name != seq![dot(), dot()]);
    assert(file_name(p) == Some(name));
    assert forall|i: int| 0 <= i < mmdb_extension().len() implies mmdb_extension()[i] != dot() by {}
    lemma_last_piece_after_separator(dotted, mmdb_extension(), dot());
}

/// A path whose last component does not end with `.mmdb` after a non-empty
/// stem does not name a database.
pub proof fn lemma_other_file_is_not_database(dir: Seq<u8>, name: Seq<u8>)
    requires
        dir.len() == 0 || dir.last() == slash(),
        name.len() > 0,
        forall|i: int| 0 <= i < name.len() ==> name[i] != slash(),
        name != seq![dot()],
        name != seq![dot(), dot()],
        !(name.len() > 5 && name.subrange(name.len() - 5, name.len() as int) == seq![dot()]
            + mmdb_extension()),
    ensures
        !is_database_path_spec(dir + name),
{
    lemma_last_piece_after_separator(dir, name, slash());
    assert(file_name(dir + name) == Some(name));
    lemma_last_piece_is_suffix(name, dot());
    let after = last_piece(name, dot());
    if after.len() + 1 < name.len() && after == mmdb_extension() {
        assert(name.subrange(name.len() - 5, name.len() as int) =~= seq![dot()]
            + mmdb_extension());
    }
}

/// Where the last piece of `p[lo..end]` after `sep` begins.
fn piece_start(p: &[u8], lo: usize, end: usize, sep: u8) -> (start: usize)
    requires
        lo <= end <= p@.len(),
    ensures
        lo <= start <= end,
        last_piece(p@.subrange(lo as int, end as int), sep) == p@.subrange(
            start as int,
            end as int,
        ),
{
    let mut start = end;
    assert(p@.subrange(start as int, end as int) =~= Seq::<u8>::empty());
    assert(last_piece(p@.subrange(lo as int, end as int), sep) =~= last_piece(
        p@.subrange(lo as int, start as int),
        sep,
    ) + p@.subrange(start as int, end as int));
    while start > lo && p[start - 1] != sep
        invariant
            lo <= start <= end <= p@.len(),
            last_piece(p@.subrange(lo as int, end as int), sep) == last_piece(
                p@.subrange(lo as int, start as int),
                sep,
            ) + p@.subrange(start as int, end as int),
        decreases start - lo,
    {
        let ghost whole = p@.subrange(lo as int, start as int);
        assert(whole.drop_last() =~= p@.subrange(lo as int, start - 1));
        assert(whole.last() == p@[start - 1]);
        assert(last_piece(whole, sep) == last_piece(whole.drop_last(), sep).push(p@[start - 1]));
        assert(last_piece(whole.drop_last(), sep).push(p@[start - 1]) + p@.subrange(
            start as int,
            end as int,
        ) =~= last_piece(whole.drop_last(), sep) + p@.subrange(start - 1, end as int));
        start = start - 1;
    }
    let ghost rest = p@.subrange(lo as int, start as int);
    assert(last_piece(rest, sep) =~= Seq::<u8>::empty());
    assert(Seq::<u8>::empty() + p@.subrange(start as int, end as int) =~= p@.subrange(
        start as int,
        end as int,
    ));
    start
}

/// The range of the file name of `p[..end]`, if it has one.
fn file_name_range(p: &[u8], end: usize) -> (r: Option<(usize, usize)>)
    requires
        end <= p@.len(),
    ensures
        match file_name(p@.subrange(0, end as int)) {
            Some(name) => r matches Some((i, j)) && i <= j <= end && p@.subrange(
                i as int,
                j as int,
            ) == name,
            None => r is None,
        },
    decreases end,
{
    let start = piece_start(p, 0, end, 47);
    let len = end - start;
    let ghost whole = p@.subrange(0, end as int);
    let ghost piece = p@.subrange(start as int, end as int);
    assert(whole.subrange(0, end as int) =~= whole);
    let is_dot = len == 1 && p[start] == 46;
    let is_dot_dot = len == 2 && p[start] == 46 && p[start + 1] == 46;
    assert(is_dot <==> piece == seq![dot()]) by {
        if is_dot {
            assert(piece =~= seq![dot()]);
        }
        if piece == seq![dot()] {
            assert(piece[0] == p@[start as int]);
        }
    }
    assert(is_dot_dot <==> piece == seq![dot(), dot()]) by {
        if is_dot_dot {
            assert(piece =~= seq![dot(), dot()]);
        }
        if piece == seq![dot(), dot()] {
            assert(piece[0] == p@[start as int]);
            assert(piece[1] == p@[start + 1]);
        }
    }
    if start > 0 {
        assert(whole.subrange(0, whole.len() - piece.len() - 1) =~= p@.subrange(
            0,
            start - 1,
        ));
        if len == 0 || is_dot {
            file_name_range(p, start - 1)
        } else if is_dot_dot {
            None
        } else {
            Some((start, end))
        }
    } else if len == 0 || is_dot || is_dot_dot {
        None
    } else {
        Some((start, end))
    }
}

/// Whether an archive entry with this path holds the database: the file
/// name of the path has the extension `mmdb`.
#[verifier::spinoff_prover]
#[verifier::rlimit(40)]
pub fn is_database_path(path: &[u8]) -> (r: bool)
    ensures
        r == is_database_path_spec(path@),
{
    assert(path@.subrange(0, path@.len() as int) =~= path@);
    match file_name_range(path, path.len()) {
        None => false,
        Some((i, j)) => {
            let k = piece_start(path, i, j, 46);
            let ghost after = path@.subrange(k as int, j as int);
            let r = k > i && k - i > 1 && j - k == 4 && path[k] == 109 && path[k + 1] == 109 && path[k
                + 2] == 100 && path[k + 3] == 98;
            assert(r <==> (after.len() + 1 < j - i && after == mmdb_extension())) by {
                if r {
                    assert(after =~= mmdb_extension());
                }
                if after.len() + 1 < j - i && after == mmdb_extension() {
                    assert(after[0] == path@[k as int]);
                    assert(after[1] == path@[k + 1]);
                    assert(after[2] == path@[k + 2]);
                    assert(after[3] == path@[k + 3]);
                }
            }
            r
        },
    }
}

/// The message of the error reported when an archive holds no database.
pub open spec fn no_database_detail() -> Seq<char> {
    "download archive did not contain an mmdb database"@
}

/// The entries of a gzip-compressed tar archive, read in order with flate2
/// and tar: the raw path of each entry read, up to the end of the archive or
/// up to the first entry that could not be read, and in that case the text
/// of the read error.
pub uninterp spec fn tar_gz_paths(archive: Seq<u8>) -> (Seq<Seq<u8>>, Option<Seq<char>>);

/// The contents of entry `index` of a gzip-compressed tar archive, read with
/// flate2 and tar, or the text of the error that reading them ended with.
pub uninterp spec fn tar_gz_contents(archive: Seq<u8>, index: nat) -> Result<Seq<u8>, Seq<char>>;

/// The bytes of each byte vector.
pub open spec fn byte_strings(v: Seq<Vec<u8>>) -> Seq<Seq<u8>> {
    v.map_values(|p: Vec<u8>| p@)
}

/// Bytes, or the text of an error.
pub open spec fn contents_text(r: Result<Vec<u8>, String>) -> Result<Seq<u8>, Seq<char>> {
    match r {
        Ok(v) => Ok(v@),
        Err(e) => Err(e@),
    }
}

/// Lists the paths of a `.tar.gz` archive's entries with
/// `tar::Archive::entries` over `flate2::read::GzDecoder`: the raw path bytes
/// (`Entry::path_bytes`) of each entry until the iterator ends, or until it
/// yields an error, whose text comes back beside the paths read before it.
/// The result is named `tar_gz_paths`; its contents are not stated.
#[verifier::external_body]
fn list_tar_gz_paths(archive: &[u8]) -> (r: (Vec<Vec<u8>>, Option<String>))
    ensures
        tar_gz_paths(archive@) == (byte_strings(r.0@), option_text(r.1)),
{
    let mut archive = tar::Archive::new(flate2::read::GzDecoder::new(archive));
    let mut paths: Vec<Vec<u8>> = Vec::new();
    let entries = match archive.entries() {
        Ok(entries) => entries,
        Err(error) => return (paths, Some(error.to_string())),
    };
    for entry in entries {
        match entry {
            Ok(entry) => paths.push(entry.path_bytes().into_owned()),
            Err(error) => return (paths, Some(error.to_string())),
        }
    }
    (paths, None)
}

/// Reads the contents of entry `index` of a `.tar.gz` archive with
/// `tar::Archive::entries` over `flate2::read::GzDecoder`, `Iterator::nth`
/// and `Read::read_to_end`, or gives the text of the error.  The result is
/// named `tar_gz_contents`; its contents are not stated.  `index` is an
/// entry that `list_tar_gz_paths` listed, so the entry exists.
#[verifier::external_body]
fn tar_gz_entry_contents(archive: &[u8], index: usize) -> (r: Result<Vec<u8>, String>)
    requires
        index < tar_gz_paths(archive@).0.len(),
    ensures
        contents_text(r) == tar_gz_contents(archive@, index as nat),
{
    let mut archive = tar::Archive::new(flate2::read::GzDecoder::new(archive));
    let mut entries = archive.entries().map_err(|error| error.to_string())?;
    let mut entry = match entries.nth(index) {
        Some(Ok(entry)) => entry,
        Some(Err(error)) => return Err(error.to_string()),
        None => return Err(String::new()),
    };
    let mut contents = Vec::new();
    std::io::Read::read_to_end(&mut entry, &mut contents).map_err(|error| error.to_string())?;
    Ok(contents)
}

/// The first database path at or after position `i`.
pub open spec fn first_database_from(paths: Seq<Seq<u8>>, i: nat) -> Option<nat>
    decreases paths.len() - i,
{
    if i >= paths.len() {
        None
    } else if is_database_path_spec(paths[i as int]) {
        Some(i)
    } else {
        first_database_from(paths, i + 1)
    }
}

/// What a downloaded archive yields: the contents of the first entry, before
/// any read failure, whose path names a `.mmdb` file; otherwise the read
/// failure that ended the listing; otherwise the report that the archive
/// holds no database.
pub open spec fn extraction_outcome(archive: Seq<u8>) -> Result<Seq<u8>, Seq<char>> {
    let (paths, failure) = tar_gz_paths(archive);
    match first_database_from(paths, 0) {
        Some(i) => tar_gz_contents(archive, i),
        None => match failure {
            Some(text) => Err(text),
            None => Err(no_database_detail()),
        },
    }
}

/// Extracts the database from a downloaded `.tar.gz` archive: the contents
/// of its first entry whose file name has the extension `mmdb`.  Every
/// failure is a database update failure carrying the reason.
pub fn extract_database(archive_bytes: &[u8]) -> (r: Result<Vec<u8>, AppError>)
    ensures
        match r {
            Ok(v) => extraction_outcome(archive_bytes@) == Ok::<Seq<u8>, Seq<char>>(v@),
            Err(e) => e matches AppError::DatabaseUpdateFailed(d) && extraction_outcome(
                archive_bytes@,
            ) == Err::<Seq<u8>, Seq<char>>(d@),
        },
{
    let (paths, failure) = list_tar_gz_paths(archive_bytes);
    let ghost listed = byte_strings(paths@);
    let n = paths.len();
    let mut i: usize = 0;
    while i < n
        invariant
            i <= n,
            n == paths@.len(),
            listed == byte_strings(paths@),
            tar_gz_paths(archive_bytes@) == (listed, option_text(failure)),
            first_database_from(listed, 0) == first_database_from(listed, i as nat),
        decreases n - i,
    {
        assert(listed[i as int] == paths@[i as int]@);
        if is_database_path(paths[i].as_slice()) {
            return match tar_gz_entry_contents(archive_bytes, i) {
                Ok(contents) => Ok(contents),
                Err(text) => Err(AppError::DatabaseUpdateFailed(text)),
            };
        }
        i = i + 1;
    }
    match failure {
        Some(text) => Err(AppError::DatabaseUpdateFailed(text)),
        None => Err(
            AppError::DatabaseUpdateFailed(
                String::from_str("download archive did not contain an mmdb database"),
            ),
        ),
    }
}

/// `first_database_from` finds, from position `i`, the first position `j`
/// whose path names a database, when no path between them does.
proof fn lemma_first_database_skips(paths: Seq<Seq<u8>>, i: nat, j: nat)
    requires
        i <= j < paths.len(),
        is_database_path_spec(paths[j as int]),
        forall|m: int| i <= m < j ==> !is_database_path_spec(#[trigger] paths[m]),
    ensures
        first_database_from(paths, i) == Some(j),
    decreases j - i,
{
    if i < j {
        lemma_first_database_skips(paths, i + 1, j);
    }
}

/// `first_database_from` finds nothing from position `i` when no later path
/// names a database.
proof fn lemma_first_database_none(paths: Seq<Seq<u8>>, i: nat)
    requires
        forall|m: int| i <= m < paths.len() ==> !is_database_path_spec(#[trigger] paths[m]),
    ensures
        first_database_from(paths, i) is None,
    decreases paths.len() - i,
{
    if i < paths.len() {
        lemma_first_database_none(paths, i + 1);
    }
}

/// Extraction reads the first listed entry whose path names a database,
/// whatever entries (directories, other files) come before it: its contents,
/// or a database update failure with the reason its read failed.
pub proof fn lemma_extracts_first_database_entry(
    archive: Seq<u8>,
    r: Result<Vec<u8>, AppError>,
    j: int,
)
    requires
        match r {
            Ok(v) => extraction_outcome(archive) == Ok::<Seq<u8>, Seq<char>>(v@),
            Err(e) => e matches AppError::DatabaseUpdateFailed(d) && extraction_outcome(archive)
                == Err::<Seq<u8>, Seq<char>>(d@),
        },
        0 <= j < tar_gz_paths(archive).0.len(),
        is_database_path_spec(tar_gz_paths(archive).0[j]),
        forall|m: int| 0 <= m < j ==> !is_database_path_spec(#[trigger] tar_gz_paths(archive).0[m]),
    ensures
        match tar_gz_contents(archive, j as nat) {
            Ok(c) => r matches Ok(v) && v@ == c,
            Err(t) => r matches Err(AppError::DatabaseUpdateFailed(d)) && d@ == t,
        },
{
    lemma_first_database_skips(tar_gz_paths(archive).0, 0, j as nat);
}

/// Without a listed entry whose path names a database, extraction fails as
/// a database update failure: with the reason the listing stopped when it
/// did not reach the end, else with the report that there is no database.
pub proof fn lemma_no_database_entry(archive: Seq<u8>, r: Result<Vec<u8>, AppError>)
    requires
        match r {
            Ok(v) => extraction_outcome(archive) == Ok::<Seq<u8>, Seq<char>>(v@),
            Err(e) => e matches AppError::DatabaseUpdateFailed(d) && extraction_outcome(archive)
                == Err::<Seq<u8>, Seq<char>>(d@),
        },
        forall|m: int|
            0 <= m < tar_gz_paths(archive).0.len() ==> !is_database_path_spec(
                #[trigger] tar_gz_paths(archive).0[m],
            ),
    ensures
        r matches Err(AppError::DatabaseUpdateFailed(d)) && d@ == match tar_gz_paths(archive).1 {
            Some(text) => text,
            None => "download archive did not contain an mmdb database"@,
        },
{
    lemma_first_database_none(tar_gz_paths(archive).0, 0);
}

/// Two present values always make credentials: each is the trimmed value,
/// whatever its length or content.
pub proof fn lemma_new_keeps_present_values(
    account_id: String,
    license_key: String,
    r: Result<Option<MaxMindCredentials>, AppError>,
)
    requires
        match MaxMindCredentials::spec_new(Some(account_id), Some(license_key)) {
            Ok(Some((a, k))) => r matches Ok(Some(c)) && c.spec_account_id() == a
                && c.spec_license_key() == k,
            Ok(None) => r matches Ok(None),
            Err(e) => r == Err::<Option<MaxMindCredentials>, AppError>(e),
        },
        trimmed(account_id@).len() > 0,
        trimmed(license_key@).len() > 0,
    ensures
        r matches Ok(Some(c)) && c.spec_account_id() == trimmed(account_id@)
            && c.spec_license_key() == trimmed(license_key@),
{
}

/// `required` gives credentials from two present values, each trimmed,
/// whatever their length or content.
pub proof fn lemma_required_keeps_present_values(
    account_id: String,
    license_key: String,
    r: Result<MaxMindCredentials, AppError>,
)
    requires
        match MaxMindCredentials::spec_new(Some(account_id), Some(license_key)) {
            Ok(Some((a, k))) => r matches Ok(c) && c.spec_account_id() == a
                && c.spec_license_key() == k,
            _ => r == Err::<MaxMindCredentials, AppError>(AppError::MissingCredentials),
        },
        trimmed(account_id@).len() > 0,
        trimmed(license_key@).len() > 0,
    ensures
        r matches Ok(c) && c.spec_account_id() == trimmed(account_id@) && c.spec_license_key()
            == trimmed(license_key@),
{
}

/// The text the downloader reports for a status it refuses.
pub open spec fn refused_status_detail(status_text: Seq<char>) -> Seq<char> {
    "MaxMind download returned status "@ + status_text
}

/// Whether the download's HTTP status lets the download go on: a success
/// status (200 to 299) does; any other is a download failure that reports
/// the status, `status_text` being how the status is written
/// (`StatusCode`'s `Display`, such as `404 Not Found`).
pub fn check_download_status(status: u16, status_text: &str) -> (r: Result<(), AppError>)
    ensures
        200 <= status < 300 ==> r is Ok,
        !(200 <= status < 300) ==> (r matches Err(AppError::DownloadFailed(d)) && d@
            == refused_status_detail(status_text@)),
{
    if 200 <= status && status < 300 {
        Ok(())
    } else {
        let mut detail = String::from_str("MaxMind download returned status ");
        detail.append(status_text);
        Err(AppError::DownloadFailed(detail))
    }
}

} // verus!
