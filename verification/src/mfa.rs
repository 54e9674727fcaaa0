//! Two-factor authentication: TOTP enrollment and verification (through `totp-rs`), backup
//! codes, and the rules that make every accepted code single-use.

use vstd::prelude::*;

use crate::crypto::{hex_encode, hex_lower_spec, lemma_hex_len, random_bytes, sha256_hex, sha256_hex_spec};
use crate::error::{ApplicationError, DomainError};
use crate::model::User;
use crate::text::has_char;

verus! {

/// The issuer shown by authenticator apps.
pub const ISSUER: &'static str = "Hangar";

/// How many backup codes a user holds after enrolling or regenerating.
pub const BACKUP_CODE_COUNT: usize = 10;

/// Six digits, 30-second steps, one step of skew either way: what nearly every authenticator
/// app assumes.
pub const TOTP_DIGITS: u8 = 6;

pub const TOTP_SKEW: u16 = 1;

pub const TOTP_STEP_SECONDS: u64 = 30;

/// Bytes of randomness in a fresh TOTP secret (160 bits, the RFC's recommendation).
pub const TOTP_SECRET_BYTES: usize = 20;

/// The HMAC a TOTP generator signs with.
#[derive(Debug, Clone, Copy, PartialEq, Eq)]
pub enum TotpAlgorithm {
    Sha1,
    Sha256,
    Sha512,
}

/// Everything a TOTP generator is built from, as plain values.
pub struct TotpSettings {
    pub algorithm: TotpAlgorithm,
    pub digits: u8,
    pub skew: u16,
    pub step: u64,
    pub secret: Vec<u8>,
    pub account_name: String,
    pub issuer: Option<String>,
}

/// What `totp_rs::Builder::build` accepts: 6 to 8 digits, an issuer and a non-empty account
/// name without `:`, a secret of at least 128 bits, a non-zero step.
pub open spec fn totp_settings_accepted(s: TotpSettings) -> bool {
    &&& 6 <= s.digits <= 8
    &&& (s.issuer matches Some(i) ==> !has_char(i@, ':'))
    &&& (s.account_name@.len() > 0 ==> !has_char(s.account_name@, ':'))
    &&& s.secret@.len() >= 16
    &&& s.step > 0
}

/// The code a generator shows at Unix time `time`, as `totp_rs::Totp::generate` computes it
/// (RFC 6238): `digits` decimal digits, zero-padded.
pub uninterp spec fn totp_code_spec(secret: Seq<u8>, algorithm: TotpAlgorithm, digits: u8, step: u64, time: u64) -> Seq<char>;

/// The text of the error `totp_rs::Builder::build` reports for refused settings.
pub uninterp spec fn totp_build_error_spec(
    secret: Seq<u8>,
    digits: u8,
    step: u64,
    account_name: Seq<char>,
    issuer: Option<Seq<char>>,
) -> Seq<char>;

/// The `otpauth://totp/...` URL `totp_rs::Totp::to_url` writes for a generator.
pub uninterp spec fn totp_url_spec(
    secret: Seq<u8>,
    algorithm: TotpAlgorithm,
    digits: u8,
    step: u64,
    account_name: Seq<char>,
    issuer: Option<Seq<char>>,
) -> Seq<char>;

/// The weight of bit `j` (0 the most significant) of a byte.
pub open spec fn bit_weight(j: int) -> int {
    if j == 0 {
        128
    } else if j == 1 {
        64
    } else if j == 2 {
        32
    } else if j == 3 {
        16
    } else if j == 4 {
        8
    } else if j == 5 {
        4
    } else if j == 6 {
        2
    } else {
        1
    }
}

/// Bit `i` of `bytes` read most significant bit first; 0 past the end.
pub open spec fn bit_at(bytes: Seq<u8>, i: int) -> int {
    if 0 <= i < bytes.len() * 8 {
        (bytes[i / 8] as int / bit_weight(i % 8)) % 2
    } else {
        0
    }
}

/// The `k`-th group of five bits, as a number below 32.
pub open spec fn five_bits(bytes: Seq<u8>, k: int) -> int {
    16 * bit_at(bytes, 5 * k) + 8 * bit_at(bytes, 5 * k + 1) + 4 * bit_at(bytes, 5 * k + 2) + 2 * bit_at(
        bytes,
        5 * k + 3,
    ) + bit_at(bytes, 5 * k + 4)
}

/// The RFC 4648 base32 alphabet: `A` to `Z`, then `2` to `7`.
pub open spec fn rfc4648_char(v: int) -> char {
    if v < 26 {
        (65 + v) as char
    } else {
        (50 + v - 26) as char
    }
}

/// The unpadded RFC 4648 base32 text of a secret, as `totp_rs::Secret::to_base32` writes it:
/// one character per five bits, the last group filled with zero bits, no `=` padding.
pub open spec fn base32_spec(bytes: Seq<u8>) -> Seq<char> {
    Seq::new(((bytes.len() * 8 + 4) / 5) as nat, |k: int| rfc4648_char(five_bits(bytes, k)))
}

/// The bytes a base32 text decodes to, as `totp_rs::Secret::try_from_base32` reads it; `None`
/// for text that is not base32.
pub uninterp spec fn base32_decode_spec(text: Seq<char>) -> Option<Seq<u8>>;

pub open spec fn issuer_view(issuer: Option<String>) -> Option<Seq<char>> {
    match issuer {
        Some(i) => Some(i@),
        None => None,
    }
}

/// `totp_rs::Builder::build`: trusted to accept exactly the settings of
/// [`totp_settings_accepted`] (the checks in the crate's `rfc` module) and otherwise to report
/// an error whose text is named, not stated.
#[verifier::external_body]
pub(crate) fn totp_build_check(s: &TotpSettings) -> (r: Result<(), String>)
    ensures
        r is Ok <==> totp_settings_accepted(*s),
        r matches Err(m) ==> m@ == totp_build_error_spec(s.secret@, s.digits, s.step, s.account_name@, issuer_view(s.issuer)),
{
    match to_totp(s).build() {
        Ok(_) => Ok(()),
        Err(e) => Err(e.to_string()),
    }
}

/// Converts the plain settings into a `totp_rs` builder, field for field.
#[verifier::external_body]
fn to_totp(s: &TotpSettings) -> totp_rs::Builder {
    let algorithm = match s.algorithm {
        TotpAlgorithm::Sha1 => totp_rs::Algorithm::SHA1,
        TotpAlgorithm::Sha256 => totp_rs::Algorithm::SHA256,
        TotpAlgorithm::Sha512 => totp_rs::Algorithm::SHA512,
    };
    totp_rs::Builder::new().with_algorithm(algorithm).with_digits(s.digits).with_skew(s.skew).with_step_duration(
        s.step,
    ).with_secret(s.secret.clone()).with_account_name(s.account_name.as_str()).with_issuer(s.issuer.as_deref())
}

#[verifier::external_type_specification]
#[verifier::external_body]
pub struct ExTotpBuilder(totp_rs::Builder);

/// Whether a code is exactly `digits` ASCII decimal digits.
pub open spec fn code_format(code: Seq<char>, digits: u8) -> bool {
    &&& code.len() == digits
    &&& forall|i: int| 0 <= i < code.len() ==> '0' <= #[trigger] code[i] <= '9'
}

/// `totp_rs::Totp::generate`: trusted to return the code for `time`, written with `Display`,
/// which pads the token's value (below `10^digits`) with zeros to exactly `digits` digits. The
/// code depends on the time only through its step: `sign` signs `time / step`, so the code is
/// also the one for the first second of that step.
#[verifier::external_body]
pub(crate) fn totp_generate(s: &TotpSettings, time: u64) -> (r: String)
    requires
        totp_settings_accepted(*s),
    ensures
        r@ == totp_code_spec(s.secret@, s.algorithm, s.digits, s.step, time),
        r@ == totp_code_spec(s.secret@, s.algorithm, s.digits, s.step, ((time / s.step) * s.step) as u64),
        code_format(r@, s.digits),
{
    to_totp(s).build_noncompliant().generate(time).to_string()
}

/// The counters `totp_rs::Totp::check` compares against for a time: the current step and `skew`
/// steps either side (never below zero).
pub open spec fn in_window(s: TotpSettings, time: u64, counter: int) -> bool {
    let origin = (time / s.step) as int;
    &&& (if origin >= s.skew { origin - s.skew } else { 0 }) <= counter
    &&& counter <= origin + s.skew
}

/// Whether checking at `time` stays within 64 bits: the crate computes the window's upper end
/// (`time / step + skew`) and each step's time (`counter * step`) without overflow checks.
pub open spec fn check_time_fits(s: TotpSettings, time: u64) -> bool {
    s.step > 0 && (time / s.step + s.skew) * s.step <= u64::MAX
}

/// `totp_rs::Totp::check`: trusted, as its source shows, to return the first step of the window
/// (counting up) whose code equals `code`, and `None` only when no step in the window has that
/// code. Only for times
/// at which the window's arithmetic stays within 64 bits.
#[verifier::external_body]
pub(crate) fn totp_check(s: &TotpSettings, code: &str, time: u64) -> (r: Option<u64>)
    requires
        totp_settings_accepted(*s),
        check_time_fits(*s, time),
    ensures
        r matches Some(c) ==> in_window(*s, time, c as int) && totp_code_spec(
            s.secret@,
            s.algorithm,
            s.digits,
            s.step,
            (c * s.step) as u64,
        ) == code@,
        r matches Some(c) ==> forall|d: int|
            #![trigger in_window(*s, time, d)]
            in_window(*s, time, d) && d < c ==> totp_code_spec(
                s.secret@,
                s.algorithm,
                s.digits,
                s.step,
                (d * s.step) as u64,
            ) != code@,
        r is None ==> forall|c: int|
            #![trigger in_window(*s, time, c)]
            in_window(*s, time, c) && 0 <= c * s.step <= u64::MAX ==> totp_code_spec(
                s.secret@,
                s.algorithm,
                s.digits,
                s.step,
                (c * s.step) as u64,
            ) != code@,
{
    to_totp(s).build_noncompliant().check(code, time)
}

/// `totp_rs::Totp::to_url`: trusted to write the `otpauth://` URL, and to refuse only an empty
/// account name or one holding `:`.
#[verifier::external_body]
pub(crate) fn totp_url(s: &TotpSettings) -> (r: Result<String, String>)
    requires
        totp_settings_accepted(*s),
    ensures
        r is Ok <==> (s.account_name@.len() > 0 && !has_char(s.account_name@, ':')),
        r matches Ok(u) ==> u@ == totp_url_spec(s.secret@, s.algorithm, s.digits, s.step, s.account_name@, issuer_view(s.issuer)),
{
    to_totp(s).build_noncompliant().to_url().map_err(|e| e.to_string())
}

/// `totp_rs::Secret::to_base32`: trusted to write the secret as unpadded RFC 4648 base32, text
/// that `base32::decode` (as `Secret::try_from_base32` calls it) reads back to the same bytes.
#[verifier::external_body]
pub(crate) fn secret_to_base32(bytes: &[u8]) -> (r: String)
    ensures
        r@ == base32_spec(bytes@),
        base32_decode_spec(r@) == Some(bytes@),
{
    totp_rs::Secret::new(bytes.to_vec().into_boxed_slice()).to_base32()
}

/// `totp_rs::Secret::try_from_base32`: trusted to decode base32 text, or refuse it.
#[verifier::external_body]
pub(crate) fn secret_from_base32(text: &str) -> (r: Option<Vec<u8>>)
    ensures
        match r {
            Some(bytes) => base32_decode_spec(text@) == Some(bytes@),
            None => base32_decode_spec(text@) is None,
        },
{
    totp_rs::Secret::try_from_base32(text).ok().map(|s| s.as_bytes().to_vec())
}

/// The current Unix time in seconds, from the system clock. Nothing is promised of it.
#[verifier::external_body]
pub(crate) fn now_unix_seconds() -> u64 {
    std::time::SystemTime::now().duration_since(std::time::UNIX_EPOCH).map(|d| d.as_secs()).unwrap_or(0)
}

pub open spec fn totp_settings_for(secret: Seq<u8>, username: Seq<char>, s: TotpSettings) -> bool {
    &&& s.algorithm == TotpAlgorithm::Sha1
    &&& s.digits == TOTP_DIGITS
    &&& s.skew == TOTP_SKEW
    &&& s.step == TOTP_STEP_SECONDS
    &&& s.secret@ == secret
    &&& s.account_name@ == username
    &&& s.issuer matches Some(i) && i@ == ISSUER@
}

/// When the generator for a secret is refused: a secret under 128 bits, or an account name
/// holding `:` (the issuer, `Hangar`, never does).
pub open spec fn totp_refused(secret: Seq<u8>, username: Seq<char>) -> bool {
    secret.len() < 16 || (username.len() > 0 && has_char(username, ':'))
}

/// The text of the refusal, for the generator of `totp_settings_for`.
pub open spec fn build_error_text(secret: Seq<u8>, username: Seq<char>) -> Seq<char> {
    totp_build_error_spec(secret, TOTP_DIGITS, TOTP_STEP_SECONDS, username, Some(ISSUER@))
}

proof fn lemma_accepted_iff_not_refused(secret: Seq<u8>, username: Seq<char>, s: TotpSettings)
    requires
        totp_settings_for(secret, username, s),
    ensures
        totp_settings_accepted(s) <==> !totp_refused(secret, username),
        issuer_view(s.issuer) == Some(ISSUER@),
{
    reveal_strlit("Hangar");
    let i = s.issuer->0;
    assert(i@ == ISSUER@);
    assert(!has_char(i@, ':')) by {
        if has_char(i@, ':') {
            let k = choose|k: int| 0 <= k < i@.len() && i@[k] == ':';
            assert(i@[k] == "Hangar"@[k]);
        }
    }
}

pub open spec fn invalid_secret_message() -> Seq<char> {
    "stored TOTP secret is not valid base32"@
}

/// The generator for a stored base32 secret: SHA-1, 6 digits, 30-second steps, one step of
/// skew, issued by `Hangar` to `username`.
pub fn build_totp(secret_base32: &str, username: &str) -> (r: Result<TotpSettings, ApplicationError>)
    ensures
        match base32_decode_spec(secret_base32@) {
            None => r matches Err(ApplicationError::Domain(DomainError::Infrastructure(m))) && m@ == invalid_secret_message(),
            Some(secret) => match r {
                Ok(s) => totp_settings_for(secret, username@, s) && totp_settings_accepted(s) && !totp_refused(
                    secret,
                    username@,
                ),
                Err(e) => totp_refused(secret, username@) && (e matches ApplicationError::Domain(
                    DomainError::Infrastructure(m),
                ) && m@ == build_error_text(secret, username@)) && exists|s: TotpSettings|
                    totp_settings_for(secret, username@, s) && !totp_settings_accepted(s),
            },
        },
{
    let secret = match secret_from_base32(secret_base32) {
        Some(bytes) => bytes,
        None => {
            return Err(
                ApplicationError::Domain(DomainError::Infrastructure(String::from_str("stored TOTP secret is not valid base32"))),
            )
        },
    };
    let settings = TotpSettings {
        algorithm: TotpAlgorithm::Sha1,
        digits: TOTP_DIGITS,
        skew: TOTP_SKEW,
        step: TOTP_STEP_SECONDS,
        secret,
        account_name: String::from_str(username),
        issuer: Some(String::from_str(ISSUER)),
    };
    proof {
        lemma_accepted_iff_not_refused(settings.secret@, username@, settings);
    }
    match totp_build_check(&settings) {
        Ok(()) => Ok(settings),
        Err(message) => Err(ApplicationError::Domain(DomainError::Infrastructure(message))),
    }
}

/// A fresh random secret, in base32.
pub fn generate_secret_base32() -> (r: String)
    ensures
        exists|bytes: Seq<u8>|
            bytes.len() == TOTP_SECRET_BYTES && r@ == base32_spec(bytes) && #[trigger] base32_decode_spec(r@) == Some(bytes),
{
    let bytes = random_bytes(TOTP_SECRET_BYTES);
    secret_to_base32(bytes.as_slice())
}

/// A base32 secret whose generator builds: what enrollment stores.
pub open spec fn usable_secret(secret_base32: Seq<char>) -> bool {
    exists|secret: Seq<u8>, s: TotpSettings|
        base32_decode_spec(secret_base32) == Some(secret) && totp_settings_for(secret, Seq::empty(), s)
            && totp_settings_accepted(s)
}

/// The code valid right now for a stored secret, for tests.
pub fn generate_current_totp_code(secret_base32: &str) -> (r: String)
    requires
        usable_secret(secret_base32@),
    ensures
        code_format(r@, TOTP_DIGITS),
        exists|now: u64| r@ == #[trigger] step_code(base32_decode_spec(secret_base32@)->0, (now / TOTP_STEP_SECONDS) as int),
        exists|s: TotpSettings, time: u64|
            totp_settings_for(base32_decode_spec(secret_base32@)->0, Seq::empty(), s) && r@ == totp_code_spec(
                s.secret@,
                s.algorithm,
                s.digits,
                s.step,
                time,
            ),
{
    let settings = match build_totp(secret_base32, "") {
        Ok(s) => s,
        Err(_) => {
            proof {
                reveal_strlit("");
            }
            assert(false);
            return String::new();
        },
    };
    let now = now_unix_seconds();
    let r = totp_generate(&settings, now);
    proof {
        assert(((now / 30) * 30) as u64 == ((now / 30) as int * 30) as u64) by (nonlinear_arith);
        assert(r@ == step_code(base32_decode_spec(secret_base32@)->0, (now / TOTP_STEP_SECONDS) as int));
    }
    r
}

/// The code for the step after `after_step`: a second, still-unused code following one that
/// was already consumed, for tests.
pub fn generate_totp_code_after_step(secret_base32: &str, after_step: i64) -> (r: String)
    requires
        usable_secret(secret_base32@),
        0 <= after_step,
        (after_step + 1) * 30 <= u64::MAX,
    ensures
        code_format(r@, TOTP_DIGITS),
        r@ == step_code(base32_decode_spec(secret_base32@)->0, after_step + 1),
        exists|s: TotpSettings|
            totp_settings_for(base32_decode_spec(secret_base32@)->0, Seq::empty(), s) && r@ == totp_code_spec(
                s.secret@,
                s.algorithm,
                s.digits,
                s.step,
                ((after_step + 1) * 30) as u64,
            ),
{
    let settings = match build_totp(secret_base32, "") {
        Ok(s) => s,
        Err(_) => {
            proof {
                reveal_strlit("");
            }
            assert(false);
            return String::new();
        },
    };
    totp_generate(&settings, (after_step as u64 + 1) * 30)
}

/// Why a code cannot be checked against a clock too far in the future for the window's
/// arithmetic.
pub const CLOCK_OUT_OF_RANGE: &'static str = "system clock out of range for TOTP";


/// Whether step `c` is in the window around Unix time `now`: the current 30-second step and one
/// step either side, never below zero.
pub open spec fn step_in_window(now: u64, c: int) -> bool {
    let origin = (now / TOTP_STEP_SECONDS) as int;
    &&& (if origin >= TOTP_SKEW { origin - TOTP_SKEW } else { 0 }) <= c
    &&& c <= origin + TOTP_SKEW
}

/// The code of step `c` for a secret, under the settings of `totp_settings_for`.
pub open spec fn step_code(secret: Seq<u8>, c: int) -> Seq<char> {
    totp_code_spec(secret, TotpAlgorithm::Sha1, TOTP_DIGITS, TOTP_STEP_SECONDS, (c * TOTP_STEP_SECONDS) as u64)
}

/// Whether the window around `now` can be checked within 64 bits.
pub open spec fn clock_fits(now: u64) -> bool {
    (now / TOTP_STEP_SECONDS + TOTP_SKEW) * TOTP_STEP_SECONDS <= u64::MAX
}

/// What checking `code` against the stored secret at Unix time `now` gives: an error for a
/// secret that is not base32, for a refused generator, or for a time past the window's
/// arithmetic; otherwise the first step of the window whose code is `code`, or `None` when
/// no step of the window has it.
pub open spec fn code_check_ok(
    secret_base32: Seq<char>,
    username: Seq<char>,
    code: Seq<char>,
    now: u64,
    r: Result<Option<u64>, ApplicationError>,
) -> bool {
    match base32_decode_spec(secret_base32) {
        None => r matches Err(ApplicationError::Domain(DomainError::Infrastructure(m))) && m@ == invalid_secret_message(),
        Some(secret) => if totp_refused(secret, username) {
            r matches Err(ApplicationError::Domain(DomainError::Infrastructure(m))) && m@ == build_error_text(
                secret,
                username,
            )
        } else if !clock_fits(now) {
            r matches Err(ApplicationError::Domain(DomainError::Infrastructure(m))) && m@ == CLOCK_OUT_OF_RANGE@
        } else {
            match r {
                Ok(Some(c)) => {
                    &&& step_in_window(now, c as int)
                    &&& step_code(secret, c as int) == code
                    &&& forall|d: int| #[trigger] step_in_window(now, d) && d < c ==> step_code(secret, d) != code
                },
                Ok(None) => forall|d: int| #[trigger] step_in_window(now, d) ==> step_code(secret, d) != code,
                Err(_) => false,
            }
        },
    }
}

/// Checks `code` against the stored secret at Unix time `now`: the first step of the window
/// around `now` (the current step, with one step of skew either side) whose code it is.
pub fn check_code_at(secret_base32: &str, username: &str, code: &str, now: u64) -> (r: Result<Option<u64>, ApplicationError>)
    ensures
        code_check_ok(secret_base32@, username@, code@, now, r),
{
    let settings = match build_totp(secret_base32, username) {
        Ok(s) => s,
        Err(e) => {
            return Err(e);
        },
    };
    if now / 30 >= 614_891_469_123_651_720 {
        return Err(ApplicationError::Domain(DomainError::Infrastructure(String::from_str(CLOCK_OUT_OF_RANGE))));
    }
    assert(check_time_fits(settings, now));
    let ghost secret = base32_decode_spec(secret_base32@)->0;
    let matched = totp_check(&settings, code, now);
    proof {
        assert forall|d: int| #[trigger] in_window(settings, now, d) == step_in_window(now, d) by {}
        match matched {
            Some(c) => {
                assert(in_window(settings, now, c as int));
                assert forall|d: int| #[trigger] step_in_window(now, d) && d < c implies step_code(secret, d) != code@ by {
                    assert(in_window(settings, now, d));
                }
            },
            None => {
                assert forall|d: int| #[trigger] step_in_window(now, d) implies step_code(secret, d) != code@ by {
                    assert(in_window(settings, now, d));
                    assert(0 <= d * 30 <= u64::MAX) by (nonlinear_arith)
                        requires
                            0 <= d <= now / 30 + 1,
                            now / 30 < 614_891_469_123_651_720,
                    ;
                }
            },
        }
    }
    Ok(matched)
}

/// Checks `code` against the stored secret at the current time of the system clock, as
/// `check_code_at` does for the time it reads.
pub fn check_current_code(secret_base32: &str, username: &str, code: &str) -> (r: Result<Option<u64>, ApplicationError>)
    ensures
        exists|now: u64| code_check_ok(secret_base32@, username@, code@, now, r),
{
    let now = now_unix_seconds();
    check_code_at(secret_base32, username, code, now)
}

/// The code of a step is accepted at any time whose window holds that step: checking it
/// gives a step of the window with the same code, that step or an earlier one (never the
/// "no match" answer), whenever the generator builds and the clock fits.
pub proof fn lemma_step_code_accepted(
    secret_base32: Seq<char>,
    username: Seq<char>,
    k: int,
    now: u64,
    r: Result<Option<u64>, ApplicationError>,
)
    requires
        base32_decode_spec(secret_base32) is Some,
        !totp_refused(base32_decode_spec(secret_base32)->0, username),
        clock_fits(now),
        step_in_window(now, k),
        code_check_ok(secret_base32, username, step_code(base32_decode_spec(secret_base32)->0, k), now, r),
    ensures
        r matches Ok(Some(c)) && c <= k && step_code(base32_decode_spec(secret_base32)->0, c as int) == step_code(
            base32_decode_spec(secret_base32)->0,
            k,
        ),
{
    let secret = base32_decode_spec(secret_base32)->0;
    match r {
        Ok(Some(c)) => {
            if c > k {
                assert(step_in_window(now, k) && k < c);
            }
        },
        Ok(None) => {
            assert(step_in_window(now, k));
        },
        Err(_) => {},
    }
}

/// The code valid right now, or `None` for a secret no TOTP can be built from.
pub fn try_generate_current_totp_code(secret_base32: &str) -> (r: Option<String>)
    ensures
        r matches Some(code) ==> code_format(code@, TOTP_DIGITS),
        r is Some <==> usable_secret(secret_base32@),
        r matches Some(code) ==> exists|s: TotpSettings, time: u64|
            totp_settings_for(base32_decode_spec(secret_base32@)->0, Seq::empty(), s) && code@ == totp_code_spec(
                s.secret@,
                s.algorithm,
                s.digits,
                s.step,
                time,
            ),
{
    match build_totp(secret_base32, "") {
        Ok(settings) => {
            proof {
                reveal_strlit("");
                assert(base32_decode_spec(secret_base32@) is Some);
                let secret = base32_decode_spec(secret_base32@)->0;
                assert(""@ =~= Seq::<char>::empty());
                assert(totp_settings_for(secret, ""@, settings));
                assert(totp_settings_for(secret, Seq::empty(), settings) && totp_settings_accepted(settings));
            }
            Some(generate_current_totp_code(secret_base32))
        },
        Err(_) => {
            proof {
                reveal_strlit("");
            }
            None
        },
    }
}

/// The code for the step after `after_step`, or `None` for a secret no TOTP can be built from
/// or a step outside the clock's range.
pub fn try_generate_totp_code_after_step(secret_base32: &str, after_step: i64) -> (r: Option<String>)
    ensures
        r matches Some(code) ==> code_format(code@, TOTP_DIGITS),
        r is Some <==> (usable_secret(secret_base32@) && 0 <= after_step && (after_step + 1) * 30 <= u64::MAX),
        r matches Some(code) ==> exists|s: TotpSettings|
            totp_settings_for(base32_decode_spec(secret_base32@)->0, Seq::empty(), s) && code@ == totp_code_spec(
                s.secret@,
                s.algorithm,
                s.digits,
                s.step,
                ((after_step + 1) * 30) as u64,
            ),
{
    if after_step < 0 || after_step as u64 > 614_891_469_123_651_719 {
        return None;
    }
    match build_totp(secret_base32, "") {
        Ok(settings) => {
            proof {
                reveal_strlit("");
                assert(base32_decode_spec(secret_base32@) is Some);
                let secret = base32_decode_spec(secret_base32@)->0;
                assert(""@ =~= Seq::<char>::empty());
                assert(totp_settings_for(secret, ""@, settings));
                assert(totp_settings_for(secret, Seq::empty(), settings) && totp_settings_accepted(settings));
            }
            Some(generate_totp_code_after_step(secret_base32, after_step))
        },
        Err(_) => {
            proof {
                reveal_strlit("");
            }
            None
        },
    }
}

/// A fresh backup code: 5 random bytes in lowercase hex.
pub fn generate_backup_code() -> (r: String)
    ensures
        exists|bytes: Seq<u8>| bytes.len() == 5 && r@ == hex_lower_spec(bytes),
{
    let bytes = random_bytes(5);
    hex_encode(bytes.as_slice())
}

/// The stored form of a backup code.
pub fn hash_backup_code(plaintext: &str) -> (r: String)
    ensures
        r@ == sha256_hex_spec(plaintext@),
{
    sha256_hex(plaintext)
}

/// The backup codes made of drawn bytes, one code per draw (its bytes in lowercase hex), and,
/// position for position, the hashes that are stored.
pub fn backup_codes_from_bytes(draws: &Vec<Vec<u8>>) -> (r: (Vec<String>, Vec<String>))
    ensures
        r.0@.len() == draws@.len(),
        r.1@.len() == draws@.len(),
        forall|i: int|
            0 <= i < draws@.len() ==> (#[trigger] r.0@[i])@ == hex_lower_spec(draws@[i]@) && r.1@[i]@
                == sha256_hex_spec(r.0@[i]@),
{
    let mut plaintext: Vec<String> = Vec::new();
    let mut hashes: Vec<String> = Vec::new();
    let mut i: usize = 0;
    while i < draws.len()
        invariant
            i <= draws@.len(),
            plaintext@.len() == i,
            hashes@.len() == i,
            forall|j: int|
                0 <= j < i ==> (#[trigger] plaintext@[j])@ == hex_lower_spec(draws@[j]@) && hashes@[j]@
                    == sha256_hex_spec(plaintext@[j]@),
        decreases draws@.len() - i,
    {
        let code = hex_encode(draws[i].as_slice());
        let hash = hash_backup_code(code.as_str());
        plaintext.push(code);
        hashes.push(hash);
        i = i + 1;
    }
    (plaintext, hashes)
}

/// `codes` and `hashes` are what `backup_codes_from_bytes` makes of `draws`: one code per
/// draw of 5 bytes, as many as a set holds.
pub open spec fn backup_codes_of(draws: Seq<Seq<u8>>, codes: Seq<String>, hashes: Seq<String>) -> bool {
    &&& draws.len() == BACKUP_CODE_COUNT
    &&& codes.len() == BACKUP_CODE_COUNT
    &&& hashes.len() == BACKUP_CODE_COUNT
    &&& forall|i: int| 0 <= i < BACKUP_CODE_COUNT ==> (#[trigger] draws[i]).len() == 5
    &&& forall|i: int|
        0 <= i < BACKUP_CODE_COUNT ==> (#[trigger] codes[i])@ == hex_lower_spec(draws[i]) && hashes[i]@
            == sha256_hex_spec(codes[i]@)
}

/// Codes and hashes as `backup_codes_from_bytes` makes them of some draws of 5 bytes each.
pub open spec fn fresh_backup_codes(codes: Seq<String>, hashes: Seq<String>) -> bool {
    exists|draws: Seq<Seq<u8>>| #[trigger] backup_codes_of(draws, codes, hashes)
}

/// A fresh set of backup codes, each of 5 random bytes, and the hashes that are stored.
pub fn generate_backup_codes() -> (r: (Vec<String>, Vec<String>))
    ensures
        fresh_backup_codes(r.0@, r.1@),
{
    let mut draws: Vec<Vec<u8>> = Vec::new();
    let mut i: usize = 0;
    while i < BACKUP_CODE_COUNT
        invariant
            i <= BACKUP_CODE_COUNT,
            draws@.len() == i,
            forall|j: int| 0 <= j < i ==> (#[trigger] draws@[j])@.len() == 5,
        decreases BACKUP_CODE_COUNT - i,
    {
        draws.push(random_bytes(5));
        i = i + 1;
    }
    let r = backup_codes_from_bytes(&draws);
    let ghost d = draws@.map_values(|v: Vec<u8>| v@);
    assert(forall|j: int| 0 <= j < BACKUP_CODE_COUNT ==> (#[trigger] d[j]) == draws@[j]@);
    assert(backup_codes_of(d, r.0@, r.1@));
    r
}

/// A user's TOTP credential. Unconfirmed until a first code has been checked against it.
#[derive(Debug, Clone, PartialEq, Eq)]
pub struct TotpCredential {
    pub user_id: u128,
    pub secret: String,
    pub confirmed: bool,
    pub last_used_step: Option<i64>,
    pub created_at: i64,
}

pub open spec fn is_confirmed(credential: Option<TotpCredential>) -> bool {
    credential matches Some(c) && c.confirmed
}

/// Whether the current password was presented correctly: an unknown account and a wrong
/// password both answer `InvalidCredentials`.
pub fn verify_current_password(user: Option<User>, password_matches: bool) -> (r: Result<(), ApplicationError>)
    ensures
        (user is Some && password_matches) <==> r is Ok,
        r is Err ==> r == Err::<(), ApplicationError>(ApplicationError::InvalidCredentials),
{
    match user {
        None => Err(ApplicationError::InvalidCredentials),
        Some(_) => if password_matches {
            Ok(())
        } else {
            Err(ApplicationError::InvalidCredentials)
        },
    }
}

/// A user's second-factor status.
#[derive(Debug, Clone, PartialEq, Eq)]
pub struct MfaStatus {
    pub totp_enabled: bool,
    pub backup_codes_remaining: i64,
    pub passkey_count: i64,
}

pub struct GetMfaStatusUseCase {}

impl GetMfaStatusUseCase {
    pub fn new() -> Self {
        GetMfaStatusUseCase {  }
    }

    /// TOTP counts as enabled only once confirmed; backup codes only count while it is.
    pub fn execute(&self, credential: Option<TotpCredential>, unused_backup_codes: i64, passkey_count: i64) -> (r: MfaStatus)
        ensures
            r.totp_enabled == is_confirmed(credential),
            r.backup_codes_remaining == (if is_confirmed(credential) {
                unused_backup_codes
            } else {
                0
            }),
            r.passkey_count == passkey_count,
    {
        let totp_enabled = match credential {
            Some(c) => c.confirmed,
            None => false,
        };
        MfaStatus { totp_enabled, backup_codes_remaining: if totp_enabled { unused_backup_codes } else { 0 }, passkey_count }
    }
}

/// A new enrollment: the secret to show the user and its `otpauth://` URL.
#[derive(Debug, Clone, PartialEq, Eq)]
pub struct TotpEnrollment {
    pub secret_base32: String,
    pub otpauth_url: String,
}

pub struct EnrollTotpUseCase {}

impl EnrollTotpUseCase {
    pub fn new() -> Self {
        EnrollTotpUseCase {  }
    }

    /// Refused while a confirmed credential exists (disable it first); an unconfirmed attempt is
    /// simply replaced. Returns the unconfirmed credential to store and what to show.
    pub fn execute(&self, existing: Option<TotpCredential>, user_id: u128, username: &str, now: i64) -> (r: Result<(TotpCredential, TotpEnrollment), ApplicationError>)
        ensures
            is_confirmed(existing) ==> r == Err::<(TotpCredential, TotpEnrollment), ApplicationError>(
                ApplicationError::MfaAlreadyEnabled,
            ),
            r is Ok <==> (!is_confirmed(existing) && username@.len() > 0 && !has_char(username@, ':')),
            r matches Ok((c, e)) ==> {
                &&& !is_confirmed(existing)
                &&& c.user_id == user_id
                &&& !c.confirmed
                &&& c.last_used_step is None
                &&& c.created_at == now
                &&& c.secret@ == e.secret_base32@
                &&& exists|bytes: Seq<u8>| bytes.len() == TOTP_SECRET_BYTES && e.secret_base32@ == base32_spec(bytes)
                &&& exists|s: TotpSettings|
                    base32_decode_spec(e.secret_base32@) == Some(s.secret@) && totp_settings_for(s.secret@, username@, s)
                        && e.otpauth_url@ == totp_url_spec(
                        s.secret@,
                        s.algorithm,
                        s.digits,
                        s.step,
                        s.account_name@,
                        issuer_view(s.issuer),
                    )
            },
    {
        if let Some(c) = &existing {
            if c.confirmed {
                return Err(ApplicationError::MfaAlreadyEnabled);
            }
        }
        let secret_base32 = generate_secret_base32();
        let settings = build_totp(secret_base32.as_str(), username)?;
        let otpauth_url = match totp_url(&settings) {
            Ok(url) => url,
            Err(message) => return Err(ApplicationError::Domain(DomainError::Infrastructure(message))),
        };
        let credential = TotpCredential {
            user_id,
            secret: secret_base32.clone(),
            confirmed: false,
            last_used_step: None,
            created_at: now,
        };
        Ok((credential, TotpEnrollment { secret_base32, otpauth_url }))
    }
}

/// Whether a checked code may be accepted: refused when it matched no step, or a step not
/// after the last one accepted, so that a code can never be used twice.
pub open spec fn step_acceptable(last_used_step: Option<i64>, step: Option<u64>) -> bool {
    &&& step is Some
    &&& !(last_used_step matches Some(last) && (step->0 as i64) <= last)
}

pub struct ConfirmTotpUseCase {}

impl ConfirmTotpUseCase {
    pub fn new() -> Self {
        ConfirmTotpUseCase {  }
    }

    /// First code after enrollment: `matched_step` is what checking the code against the
    /// credential's generator returned. Returns the confirmed credential to store.
    pub fn execute(&self, credential: Option<TotpCredential>, matched_step: Option<u64>) -> (r: Result<TotpCredential, ApplicationError>)
        ensures
            match credential {
                None => r == Err::<TotpCredential, ApplicationError>(ApplicationError::MfaNotEnrolled),
                Some(c) => match matched_step {
                    None => r == Err::<TotpCredential, ApplicationError>(ApplicationError::InvalidMfaCode),
                    Some(step) => r == Ok::<TotpCredential, ApplicationError>(
                        TotpCredential { confirmed: true, last_used_step: Some(step as i64), ..c },
                    ),
                },
            },
    {
        let c = match credential {
            None => return Err(ApplicationError::MfaNotEnrolled),
            Some(c) => c,
        };
        match matched_step {
            None => Err(ApplicationError::InvalidMfaCode),
            Some(step) => Ok(TotpCredential { confirmed: true, last_used_step: Some(step as i64), ..c }),
        }
    }

    /// Confirms an enrollment with a code checked at Unix time `now`: the credential, confirmed
    /// at the matched step, and a fresh set of backup codes with their hashes (the only time
    /// the plaintext codes are seen). No credential, an error building the generator, or a code
    /// matching no step of the window refuses it.
    pub fn confirm_at(&self, credential: Option<TotpCredential>, username: &str, code: &str, now: u64) -> (r: Result<
        (TotpCredential, Vec<String>, Vec<String>),
        ApplicationError,
    >)
        ensures
            match credential {
                None => r == Err::<(TotpCredential, Vec<String>, Vec<String>), ApplicationError>(ApplicationError::MfaNotEnrolled),
                Some(c) => exists|checked: Result<Option<u64>, ApplicationError>|
                    #[trigger] code_check_ok(c.secret@, username@, code@, now, checked) && confirmed_by(c, checked, r),
            },
    {
        let c = match credential {
            None => return Err(ApplicationError::MfaNotEnrolled),
            Some(c) => c,
        };
        let checked = check_code_at(c.secret.as_str(), username, code, now);
        let ghost g = checked;
        let r = match checked {
            Err(e) => Err(e),
            Ok(None) => Err(ApplicationError::InvalidMfaCode),
            Ok(Some(step)) => {
                let confirmed = TotpCredential { confirmed: true, last_used_step: Some(step as i64), ..c };
                let (codes, hashes) = generate_backup_codes();
                Ok((confirmed, codes, hashes))
            },
        };
        assert(confirmed_by(c, g, r));
        r
    }

    /// Confirms an enrollment with a code checked against the system clock, as `confirm_at`
    /// does at the time read.
    pub fn confirm(&self, credential: Option<TotpCredential>, username: &str, code: &str) -> (r: Result<
        (TotpCredential, Vec<String>, Vec<String>),
        ApplicationError,
    >)
        ensures
            match credential {
                None => r == Err::<(TotpCredential, Vec<String>, Vec<String>), ApplicationError>(ApplicationError::MfaNotEnrolled),
                Some(c) => exists|now: u64, checked: Result<Option<u64>, ApplicationError>|
                    #[trigger] code_check_ok(c.secret@, username@, code@, now, checked) && confirmed_by(c, checked, r),
            },
    {
        self.confirm_at(credential, username, code, now_unix_seconds())
    }
}

/// What confirming `c` gives once its code was checked with outcome `checked`: the check's
/// error; `InvalidMfaCode` when no step matched; else `c` confirmed at the matched step, with
/// fresh backup codes.
pub open spec fn confirmed_by(
    c: TotpCredential,
    checked: Result<Option<u64>, ApplicationError>,
    r: Result<(TotpCredential, Vec<String>, Vec<String>), ApplicationError>,
) -> bool {
    match checked {
        Err(e) => r == Err::<(TotpCredential, Vec<String>, Vec<String>), ApplicationError>(e),
        Ok(None) => r == Err::<(TotpCredential, Vec<String>, Vec<String>), ApplicationError>(ApplicationError::InvalidMfaCode),
        Ok(Some(step)) => r matches Ok((cred, codes, hashes)) && cred == (TotpCredential {
            confirmed: true,
            last_used_step: Some(step as i64),
            ..c
        }) && fresh_backup_codes(codes@, hashes@),
    }
}

pub struct VerifyTotpUseCase {}

impl VerifyTotpUseCase {
    pub fn new() -> Self {
        VerifyTotpUseCase {  }
    }

    /// Which credential a code is checked against: only a confirmed one.
    pub fn credential(&self, credential: Option<TotpCredential>) -> (r: Result<TotpCredential, ApplicationError>)
        ensures
            match credential {
                Some(c) if c.confirmed => r == Ok::<TotpCredential, ApplicationError>(c),
                _ => r == Err::<TotpCredential, ApplicationError>(ApplicationError::MfaNotEnrolled),
            },
    {
        match credential {
            Some(c) => if c.confirmed {
                Ok(c)
            } else {
                Err(ApplicationError::MfaNotEnrolled)
            },
            None => Err(ApplicationError::MfaNotEnrolled),
        }
    }

    /// The step to record as used, when the code matched one after the last used step. The
    /// store's compare-and-swap of that step (`finish`) is what settles a race.
    pub fn accept_step(&self, last_used_step: Option<i64>, matched_step: Option<u64>) -> (r: Result<i64, ApplicationError>)
        ensures
            step_acceptable(last_used_step, matched_step) ==> r == Ok::<i64, ApplicationError>(matched_step->0 as i64),
            !step_acceptable(last_used_step, matched_step) ==> r == Err::<i64, ApplicationError>(
                ApplicationError::InvalidMfaCode,
            ),
    {
        let step = match matched_step {
            None => return Err(ApplicationError::InvalidMfaCode),
            Some(step) => step as i64,
        };
        if let Some(last) = last_used_step {
            if step <= last {
                return Err(ApplicationError::InvalidMfaCode);
            }
        }
        Ok(step)
    }

    /// `advanced` is whether the store moved the last used step forward to this one.
    pub fn finish(&self, advanced: bool) -> (r: Result<(), ApplicationError>)
        ensures
            advanced <==> r is Ok,
            r is Err ==> r == Err::<(), ApplicationError>(ApplicationError::InvalidMfaCode),
    {
        if advanced {
            Ok(())
        } else {
            Err(ApplicationError::InvalidMfaCode)
        }
    }
}

/// Once a step has been accepted and recorded, a code for that step or any earlier one is
/// refused: a TOTP code is accepted at most once.
pub proof fn lemma_accepted_step_is_not_replayable(last_used_step: Option<i64>, first: u64, again: u64)
    requires
        step_acceptable(last_used_step, Some(first)),
        (again as i64) <= (first as i64),
    ensures
        !step_acceptable(Some(first as i64), Some(again)),
{
}

pub struct VerifyBackupCodeUseCase {}

impl VerifyBackupCodeUseCase {
    pub fn new() -> Self {
        VerifyBackupCodeUseCase {  }
    }

    /// The hash under which the presented code is looked up and consumed.
    pub fn code_hash(&self, code: &str) -> (r: String)
        ensures
            r@ == sha256_hex_spec(code@),
    {
        hash_backup_code(code)
    }

    /// `consumed` is whether an unused code with that hash existed and was marked used.
    pub fn execute(&self, consumed: bool) -> (r: Result<(), ApplicationError>)
        ensures
            consumed <==> r is Ok,
            r is Err ==> r == Err::<(), ApplicationError>(ApplicationError::InvalidMfaCode),
    {
        if consumed {
            Ok(())
        } else {
            Err(ApplicationError::InvalidMfaCode)
        }
    }
}

pub struct DisableTotpUseCase {}

impl DisableTotpUseCase {
    pub fn new() -> Self {
        DisableTotpUseCase {  }
    }

    /// Disabling needs the current password; on success the credential and every backup code
    /// are deleted.
    pub fn execute(&self, user: Option<User>, password_matches: bool) -> (r: Result<(), ApplicationError>)
        ensures
            (user is Some && password_matches) <==> r is Ok,
            r is Err ==> r == Err::<(), ApplicationError>(ApplicationError::InvalidCredentials),
    {
        verify_current_password(user, password_matches)
    }
}

pub struct RegenerateBackupCodesUseCase {}

impl RegenerateBackupCodesUseCase {
    pub fn new() -> Self {
        RegenerateBackupCodesUseCase {  }
    }

    /// Needs the current password and a confirmed TOTP credential; returns the new plaintext
    /// codes and the hashes that replace the whole previous set.
    pub fn execute(&self, user: Option<User>, password_matches: bool, credential: Option<TotpCredential>) -> (r: Result<(Vec<String>, Vec<String>), ApplicationError>)
        ensures
            !(user is Some && password_matches) ==> r == Err::<(Vec<String>, Vec<String>), ApplicationError>(
                ApplicationError::InvalidCredentials,
            ),
            (user is Some && password_matches) && !is_confirmed(credential) ==> r == Err::<
                (Vec<String>, Vec<String>),
                ApplicationError,
            >(ApplicationError::MfaNotEnrolled),
            (user is Some && password_matches && is_confirmed(credential)) ==> r is Ok,
            r matches Ok((codes, hashes)) ==> fresh_backup_codes(codes@, hashes@),
    {
        verify_current_password(user, password_matches)?;
        let confirmed = match &credential {
            Some(c) => c.confirmed,
            None => false,
        };
        if !confirmed {
            return Err(ApplicationError::MfaNotEnrolled);
        }
        let fresh = generate_backup_codes();
        Ok(fresh)
    }
}

} // verus!
