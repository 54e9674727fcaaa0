//! Single sign-on: how an external identity is matched to an account, and the username a new
//! account gets from the identity's email address.

use vstd::prelude::*;

use crate::error::ApplicationError;
use crate::model::User;
use crate::package_tree::ascii_lowercase_spec;
use crate::text::{chars_of, string_of, string_push, is_ascii_alnum, is_ascii_alnum_spec};

verus! {

/// Usernames derived here never exceed this many characters.
pub const MAX_USERNAME_CHARS: usize = 32;

/// The lowercase form of a string, as `str::to_lowercase` computes it (full Unicode case
/// mapping, which may change the length).
pub uninterp spec fn to_lowercase_spec(s: Seq<char>) -> Seq<char>;

/// Whether no character is an ASCII capital letter.
pub open spec fn no_ascii_uppercase(s: Seq<char>) -> bool {
    forall|i: int| 0 <= i < s.len() ==> !('A' <= #[trigger] s[i] <= 'Z')
}

/// `str::to_lowercase`: trusted to return the Unicode lowercase mapping of `s`, in which no
/// ASCII capital letter remains (each becomes its small letter, and no lowercase mapping
/// yields one); an all-ASCII text is lowercased character by character, the rest unchanged.
#[verifier::external_body]
pub(crate) fn to_lowercase(s: &str) -> (r: String)
    ensures
        r@ == to_lowercase_spec(s@),
        no_ascii_uppercase(r@),
        (forall|i: int| 0 <= i < s@.len() ==> (#[trigger] s@[i] as u32) < 128) ==> r@ == ascii_lowercase_spec(s@),
{
    s.to_lowercase()
}

/// Everything before the first `@`, or the whole address when there is none.
pub open spec fn local_part(email: Seq<char>) -> Seq<char>
    decreases email.len(),
{
    if email.len() == 0 {
        email
    } else if email[0] == '@' {
        Seq::empty()
    } else {
        seq![email[0]] + local_part(email.drop_first())
    }
}

/// The characters a derived username keeps: ASCII letters and digits, `_` and `-`.
pub open spec fn username_char(c: char) -> bool {
    is_ascii_alnum_spec(c) || c == '_' || c == '-'
}

pub open spec fn is_ascii_alpha_spec(c: char) -> bool {
    ('a' <= c && c <= 'z') || ('A' <= c && c <= 'Z')
}

pub open spec fn keep_username_chars(s: Seq<char>) -> Seq<char>
    decreases s.len(),
{
    if s.len() == 0 {
        s
    } else if username_char(s[0]) {
        seq![s[0]] + keep_username_chars(s.drop_first())
    } else {
        keep_username_chars(s.drop_first())
    }
}

/// The username proposed for an email address: its local part, lowercased, stripped to the
/// allowed characters; prefixed with `u` unless it starts with a letter; suffixed with `-user`
/// when shorter than 3 characters; cut to 32 characters.
pub open spec fn username_candidate_spec(email: Seq<char>) -> Seq<char> {
    let filtered = keep_username_chars(to_lowercase_spec(local_part(email)));
    let prefixed = if filtered.len() > 0 && is_ascii_alpha_spec(filtered[0]) {
        filtered
    } else {
        seq!['u'] + filtered
    };
    let padded = if prefixed.len() < 3 {
        prefixed + "-user"@
    } else {
        prefixed
    };
    if padded.len() <= 32 {
        padded
    } else {
        padded.subrange(0, 32)
    }
}

proof fn lemma_keep_username_chars_step(s: Seq<char>, i: int)
    requires
        0 <= i < s.len(),
    ensures
        keep_username_chars(s.subrange(0, i + 1)) == if username_char(s[i]) {
            keep_username_chars(s.subrange(0, i)).push(s[i])
        } else {
            keep_username_chars(s.subrange(0, i))
        },
    decreases i,
{
    let t = s.subrange(0, i + 1);
    if i == 0 {
        assert(t.drop_first() =~= Seq::<char>::empty());
        assert(s.subrange(0, 0) =~= Seq::<char>::empty());
        assert(keep_username_chars(Seq::<char>::empty()) =~= Seq::<char>::empty());
    } else {
        let u = s.drop_first();
        lemma_keep_username_chars_step(u, i - 1);
        assert(t.drop_first() =~= u.subrange(0, i));
        assert(s.subrange(0, i).drop_first() =~= u.subrange(0, i - 1));
        assert(s.subrange(0, i)[0] == s[0]);
        assert(t[0] == s[0]);
        assert(u[i - 1] == s[i]);
        if username_char(s[0]) {
            assert(keep_username_chars(t) == seq![s[0]] + keep_username_chars(u.subrange(0, i)));
            assert(keep_username_chars(s.subrange(0, i)) == seq![s[0]] + keep_username_chars(u.subrange(0, i - 1)));
            if username_char(s[i]) {
                assert(seq![s[0]] + keep_username_chars(u.subrange(0, i - 1)).push(s[i]) =~= (seq![s[0]]
                    + keep_username_chars(u.subrange(0, i - 1))).push(s[i]));
            }
        }
    }
}

proof fn lemma_local_part_step(s: Seq<char>, i: int)
    requires
        0 <= i < s.len(),
        forall|j: int| 0 <= j < i ==> s[j] != '@',
    ensures
        local_part(s.subrange(0, i)) == s.subrange(0, i),
        s[i] == '@' ==> local_part(s) == s.subrange(0, i),
        i == s.len() - 1 && s[i] != '@' ==> local_part(s) == s,
    decreases i,
{
    if i == 0 {
        assert(s.subrange(0, 0) =~= Seq::<char>::empty());
        if s.len() == 1 && s[0] != '@' {
            assert(s.drop_first() =~= Seq::<char>::empty());
            assert(seq![s[0]] + Seq::<char>::empty() =~= s);
        }
    } else {
        let u = s.drop_first();
        lemma_local_part_step(u, i - 1);
        assert(s.subrange(0, i).drop_first() =~= u.subrange(0, i - 1));
        assert(seq![s[0]] + u.subrange(0, i - 1) =~= s.subrange(0, i));
        if i == s.len() - 1 && s[i] != '@' {
            assert(seq![s[0]] + u =~= s);
        }
    }
}

/// The local part of an email address, as `split('@').next()` yields it.
fn local_part_of(email: &str) -> (r: String)
    ensures
        r@ == local_part(email@),
{
    let cs = chars_of(email);
    let mut out: Vec<char> = Vec::new();
    let mut i: usize = 0;
    while i < cs.len()
        invariant
            cs@ == email@,
            i <= cs@.len(),
            out@ == cs@.subrange(0, i as int),
            forall|j: int| 0 <= j < i ==> cs@[j] != '@',
        decreases cs@.len() - i,
    {
        if cs[i] == '@' {
            proof {
                lemma_local_part_step(cs@, i as int);
            }
            return string_of(&out);
        }
        proof {
            lemma_local_part_step(cs@, i as int);
        }
        out.push(cs[i]);
        i = i + 1;
        assert(out@ =~= cs@.subrange(0, i as int));
    }
    proof {
        if cs@.len() == 0 {
            assert(out@ =~= cs@);
        } else {
            lemma_local_part_step(cs@, cs@.len() - 1);
            assert(out@ =~= cs@);
        }
    }
    string_of(&out)
}

/// The first username tried for a new SSO account.
pub fn derive_username_candidate(email: &str) -> (r: String)
    ensures
        r@ == username_candidate_spec(email@),
        no_ascii_uppercase(r@),
        well_formed_username(r@),
{
    proof {
        lemma_username_candidate_well_formed(email@);
    }
    let local = local_part_of(email);
    let lowered = to_lowercase(local.as_str());
    proof {
        lemma_candidate_has_no_uppercase(email@);
    }
    let cs = chars_of(lowered.as_str());
    let mut filtered: Vec<char> = Vec::new();
    let mut i: usize = 0;
    while i < cs.len()
        invariant
            i <= cs@.len(),
            filtered@ == keep_username_chars(cs@.subrange(0, i as int)),
        decreases cs@.len() - i,
    {
        let c = cs[i];
        proof {
            lemma_keep_username_chars_step(cs@, i as int);
        }
        if is_ascii_alnum(c) || c == '_' || c == '-' {
            filtered.push(c);
        }
        i = i + 1;
    }
    assert(cs@.subrange(0, cs@.len() as int) =~= cs@);
    let starts_with_letter = filtered.len() > 0 && (('a' <= filtered[0] && filtered[0] <= 'z') || ('A'
        <= filtered[0] && filtered[0] <= 'Z'));
    let mut candidate: Vec<char> = Vec::new();
    if !starts_with_letter {
        candidate.push('u');
    }
    let mut k: usize = 0;
    while k < filtered.len()
        invariant
            k <= filtered@.len(),
            candidate@ == (if starts_with_letter {
                Seq::<char>::empty()
            } else {
                seq!['u']
            }) + filtered@.subrange(0, k as int),
        decreases filtered@.len() - k,
    {
        candidate.push(filtered[k]);
        k = k + 1;
        assert(candidate@ =~= (if starts_with_letter {
            Seq::<char>::empty()
        } else {
            seq!['u']
        }) + filtered@.subrange(0, k as int));
    }
    assert(filtered@.subrange(0, filtered@.len() as int) =~= filtered@);
    let ghost prefixed = if starts_with_letter { filtered@ } else { seq!['u'] + filtered@ };
    assert(candidate@ =~= prefixed);
    if candidate.len() < 3 {
        candidate.push('-');
        candidate.push('u');
        candidate.push('s');
        candidate.push('e');
        candidate.push('r');
        proof {
            reveal_strlit("-user");
        }
        assert(candidate@ =~= prefixed + "-user"@);
    }
    let ghost padded = candidate@;
    let mut out: Vec<char> = Vec::new();
    let mut j: usize = 0;
    while j < candidate.len() && j < MAX_USERNAME_CHARS
        invariant
            j <= candidate@.len(),
            j <= 32,
            out@ == candidate@.subrange(0, j as int),
        decreases candidate@.len() - j,
    {
        out.push(candidate[j]);
        j = j + 1;
        assert(out@ =~= candidate@.subrange(0, j as int));
    }
    assert(candidate@.len() <= 32 ==> candidate@.subrange(0, candidate@.len() as int) =~= candidate@);
    string_of(&out)
}

/// Everything a derived username is made of: 3 to 32 characters from the allowed set,
/// starting with an ASCII letter.
pub open spec fn well_formed_username(s: Seq<char>) -> bool {
    &&& 3 <= s.len() <= 32
    &&& is_ascii_alpha_spec(s[0])
    &&& forall|i: int| 0 <= i < s.len() ==> username_char(#[trigger] s[i])
}

proof fn lemma_keep_username_chars_allowed(s: Seq<char>)
    ensures
        forall|i: int| 0 <= i < keep_username_chars(s).len() ==> username_char(#[trigger] keep_username_chars(s)[i]),
    decreases s.len(),
{
    if s.len() > 0 {
        lemma_keep_username_chars_allowed(s.drop_first());
        let rest = keep_username_chars(s.drop_first());
        if username_char(s[0]) {
            assert forall|i: int| 0 <= i < keep_username_chars(s).len() implies username_char(
                #[trigger] keep_username_chars(s)[i],
            ) by {
                if i > 0 {
                    assert(keep_username_chars(s)[i] == rest[i - 1]);
                }
            }
        }
    }
}

proof fn lemma_keep_username_chars_subset(s: Seq<char>)
    ensures
        forall|i: int| 0 <= i < keep_username_chars(s).len() ==> s.contains(#[trigger] keep_username_chars(s)[i]),
    decreases s.len(),
{
    if s.len() > 0 {
        lemma_keep_username_chars_subset(s.drop_first());
        let rest = keep_username_chars(s.drop_first());
        assert forall|i: int| 0 <= i < keep_username_chars(s).len() implies s.contains(#[trigger] keep_username_chars(s)[i]) by {
            if username_char(s[0]) {
                if i == 0 {
                    assert(s[0] == keep_username_chars(s)[0]);
                } else {
                    assert(keep_username_chars(s)[i] == rest[i - 1]);
                    let k = choose|k: int| 0 <= k < s.drop_first().len() && s.drop_first()[k] == rest[i - 1];
                    assert(s[k + 1] == rest[i - 1]);
                }
            } else {
                let k = choose|k: int| 0 <= k < s.drop_first().len() && s.drop_first()[k] == rest[i];
                assert(s[k + 1] == rest[i]);
            }
        }
    }
}

/// A derived username holds no ASCII capital letter when the lowercased local part holds none
/// (which the lowercasing guarantees).
pub proof fn lemma_candidate_has_no_uppercase(email: Seq<char>)
    requires
        no_ascii_uppercase(to_lowercase_spec(local_part(email))),
    ensures
        no_ascii_uppercase(username_candidate_spec(email)),
{
    let lowered = to_lowercase_spec(local_part(email));
    let filtered = keep_username_chars(lowered);
    lemma_keep_username_chars_subset(lowered);
    assert(no_ascii_uppercase(filtered)) by {
        assert forall|i: int| 0 <= i < filtered.len() implies !('A' <= #[trigger] filtered[i] <= 'Z') by {
            assert(lowered.contains(filtered[i]));
        }
    }
    let prefixed = if filtered.len() > 0 && is_ascii_alpha_spec(filtered[0]) {
        filtered
    } else {
        seq!['u'] + filtered
    };
    assert(no_ascii_uppercase(prefixed)) by {
        assert forall|i: int| 0 <= i < prefixed.len() implies !('A' <= #[trigger] prefixed[i] <= 'Z') by {
            if !(filtered.len() > 0 && is_ascii_alpha_spec(filtered[0])) && i > 0 {
                assert(prefixed[i] == filtered[i - 1]);
            }
        }
    }
    reveal_strlit("-user");
    let padded = if prefixed.len() < 3 {
        prefixed + "-user"@
    } else {
        prefixed
    };
    assert(no_ascii_uppercase(padded)) by {
        assert forall|i: int| 0 <= i < padded.len() implies !('A' <= #[trigger] padded[i] <= 'Z') by {
            if prefixed.len() < 3 && i >= prefixed.len() {
                assert(padded[i] == "-user"@[i - prefixed.len()]);
            }
        }
    }
    let r = username_candidate_spec(email);
    assert forall|i: int| 0 <= i < r.len() implies !('A' <= #[trigger] r[i] <= 'Z') by {
        assert(r[i] == padded[i]);
    }
}

/// Whatever the address, the derived username is well formed.
pub proof fn lemma_username_candidate_well_formed(email: Seq<char>)
    ensures
        well_formed_username(username_candidate_spec(email)),
{
    let filtered = keep_username_chars(to_lowercase_spec(local_part(email)));
    lemma_keep_username_chars_allowed(to_lowercase_spec(local_part(email)));
    let prefixed = if filtered.len() > 0 && is_ascii_alpha_spec(filtered[0]) {
        filtered
    } else {
        seq!['u'] + filtered
    };
    assert forall|i: int| 0 <= i < prefixed.len() implies username_char(#[trigger] prefixed[i]) by {
        if !(filtered.len() > 0 && is_ascii_alpha_spec(filtered[0])) && i > 0 {
            assert(prefixed[i] == filtered[i - 1]);
        }
    }
    reveal_strlit("-user");
    let padded = if prefixed.len() < 3 {
        prefixed + "-user"@
    } else {
        prefixed
    };
    assert forall|i: int| 0 <= i < padded.len() implies username_char(#[trigger] padded[i]) by {
        if prefixed.len() < 3 && i >= prefixed.len() {
            assert(padded[i] == "-user"@[i - prefixed.len()]);
        }
    }
    assert(is_ascii_alpha_spec(padded[0]));
    let r = username_candidate_spec(email);
    assert forall|i: int| 0 <= i < r.len() implies username_char(#[trigger] r[i]) by {
        assert(r[i] == padded[i]);
    }
}

/// The decimal digits of `n`, most significant first.
pub open spec fn decimal_spec(n: nat) -> Seq<char>
    decreases n,
{
    if n < 10 {
        seq![(('0' as int) + n) as char]
    } else {
        decimal_spec(n / 10).push((('0' as int) + (n % 10)) as char)
    }
}

pub open spec fn pow10(k: nat) -> nat
    decreases k,
{
    if k == 0 {
        1
    } else {
        10 * pow10((k - 1) as nat)
    }
}

proof fn lemma_decimal_len(n: nat, k: nat)
    requires
        k >= 1,
        n < pow10(k),
    ensures
        1 <= decimal_spec(n).len() <= k,
    decreases n,
{
    if n >= 10 {
        let p = pow10((k - 1) as nat);
        assert(k >= 2) by {
            if k == 1 {
                assert(pow10(1) == 10 * pow10(0));
            }
        }
        assert(n / 10 < p) by (nonlinear_arith)
            requires
                n < 10 * p,
        ;
        lemma_decimal_len(n / 10, (k - 1) as nat);
    }
}

/// `n` in decimal, as its `Display` writes it.
pub fn decimal(n: u32) -> (r: String)
    ensures
        r@ == decimal_spec(n as nat),
        1 <= r@.len() <= 10,
    decreases n,
{
    proof {
        reveal_with_fuel(pow10, 11);
        assert(pow10(10) == 10000000000);
        lemma_decimal_len(n as nat, 10);
    }
    if n < 10 {
        let mut r = String::new();
        string_push(&mut r, char_of_digit(n));
        assert(r@ =~= decimal_spec(n as nat));
        r
    } else {
        let mut r = decimal(n / 10);
        string_push(&mut r, char_of_digit(n % 10));
        r
    }
}

fn char_of_digit(d: u32) -> (c: char)
    requires
        d < 10,
    ensures
        c == (('0' as int) + d) as char,
{
    if d == 0 { '0' }
    else if d == 1 { '1' }
    else if d == 2 { '2' }
    else if d == 3 { '3' }
    else if d == 4 { '4' }
    else if d == 5 { '5' }
    else if d == 6 { '6' }
    else if d == 7 { '7' }
    else if d == 8 { '8' }
    else { '9' }
}

/// The `attempt`-th username tried for a base candidate: the base itself first, then the base
/// cut short enough to take `-<attempt>` and still fit in 32 characters.
pub open spec fn username_attempt_spec(base: Seq<char>, attempt: nat) -> Seq<char> {
    if attempt <= 1 {
        base
    } else {
        let suffix = seq!['-'] + decimal_spec(attempt);
        let keep = 32 - suffix.len();
        (if base.len() <= keep {
            base
        } else {
            base.subrange(0, keep)
        }) + suffix
    }
}

pub fn username_attempt(base: &str, attempt: u32) -> (r: String)
    ensures
        r@ == username_attempt_spec(base@, attempt as nat),
{
    if attempt <= 1 {
        return String::from_str(base);
    }
    let digits = decimal(attempt);
    let mut suffix = String::from_str("-");
    suffix.append(digits.as_str());
    proof {
        reveal_strlit("-");
        assert(suffix@ =~= seq!['-'] + decimal_spec(attempt as nat));
    }
    let keep: usize = 32 - (digits.unicode_len() + 1);
    let cs = chars_of(base);
    let mut out: Vec<char> = Vec::new();
    let mut j: usize = 0;
    while j < cs.len() && j < keep
        invariant
            j <= cs@.len(),
            j <= keep,
            out@ == cs@.subrange(0, j as int),
        decreases cs@.len() - j,
    {
        out.push(cs[j]);
        j = j + 1;
        assert(out@ =~= cs@.subrange(0, j as int));
    }
    assert(cs@.len() <= keep ==> cs@.subrange(0, cs@.len() as int) =~= cs@);
    let mut r = string_of(&out);
    r.append(suffix.as_str());
    r
}

/// Provisioning an account for a user who signed in through SSO.
pub struct ProvisionSsoUserUseCase {}

/// What provisioning does after learning whether the `attempt`-th candidate is taken: claim it
/// when free, else try the next attempt.
#[derive(Debug, Clone, PartialEq, Eq)]
pub enum UsernameAction {
    Claim(String),
    Try(u32),
}

/// The username claimed by answering, attempt after attempt from `attempt` on, whether each
/// candidate is taken (`answers[i]` for the `attempt + i`-th); `None` while every answer so
/// far said taken.
pub open spec fn claimed_username(base: Seq<char>, answers: Seq<bool>, attempt: nat) -> Option<Seq<char>>
    decreases answers.len(),
{
    if answers.len() == 0 {
        None
    } else if !answers[0] {
        Some(username_attempt_spec(base, attempt))
    } else {
        claimed_username(base, answers.drop_first(), attempt + 1)
    }
}

/// A provisioned account takes the first free username: when the first `k` candidates are
/// taken and the next is free, the one claimed is the `k + 1`-th.
pub proof fn lemma_first_free_username(base: Seq<char>, answers: Seq<bool>, k: int)
    requires
        0 <= k < answers.len(),
        !answers[k],
        forall|j: int| 0 <= j < k ==> answers[j],
    ensures
        claimed_username(base, answers, 1) == Some(username_attempt_spec(base, (k + 1) as nat)),
{
    lemma_claimed_from(base, answers, k, 1);
}

proof fn lemma_claimed_from(base: Seq<char>, answers: Seq<bool>, k: int, attempt: nat)
    requires
        0 <= k < answers.len(),
        !answers[k],
        forall|j: int| 0 <= j < k ==> answers[j],
    ensures
        claimed_username(base, answers, attempt) == Some(username_attempt_spec(base, (attempt + k) as nat)),
    decreases k,
{
    if k > 0 {
        let rest = answers.drop_first();
        assert(answers[0]);
        assert forall|j: int| 0 <= j < k - 1 implies rest[j] by {
            assert(rest[j] == answers[j + 1]);
        }
        lemma_claimed_from(base, rest, k - 1, attempt + 1);
    }
}

impl ProvisionSsoUserUseCase {
    pub fn new() -> Self {
        ProvisionSsoUserUseCase {  }
    }

    /// Whether the account already holding the identity's address may be signed into. Only one
    /// in the same organization and without elevated privilege: otherwise a directory attribute
    /// the user controls could hand out another organization's or an administrator's session.
    pub fn reuse_existing(&self, existing: &User, organization_id: u128) -> (r: Result<u128, ApplicationError>)
        ensures
            (existing.organization_id == organization_id && !existing.is_super_admin
                && !existing.is_organization_admin) ==> r == Ok::<u128, ApplicationError>(existing.id),
            !(existing.organization_id == organization_id && !existing.is_super_admin
                && !existing.is_organization_admin) ==> r == Err::<u128, ApplicationError>(
                ApplicationError::InvalidCredentials,
            ),
    {
        if existing.organization_id != organization_id || existing.is_super_admin || existing.is_organization_admin {
            return Err(ApplicationError::InvalidCredentials);
        }
        Ok(existing.id)
    }

    /// The username to try on the `attempt`-th round (counting from 1) for an address.
    pub fn candidate(&self, email: &str, attempt: u32) -> (r: String)
        ensures
            r@ == username_attempt_spec(username_candidate_spec(email@), attempt as nat),
    {
        let base = derive_username_candidate(email);
        username_attempt(base.as_str(), attempt)
    }

    /// One round of the search for a free username: the `attempt`-th candidate is claimed
    /// when it is not `taken`; otherwise the next attempt follows. Rounds taken in turn from
    /// attempt 1 claim what `claimed_username` names.
    pub fn next_username(&self, email: &str, attempt: u32, taken: bool) -> (r: UsernameAction)
        requires
            taken ==> attempt < u32::MAX,
        ensures
            !taken ==> (r matches UsernameAction::Claim(u) && u@ == username_attempt_spec(
                username_candidate_spec(email@),
                attempt as nat,
            )),
            taken ==> r == UsernameAction::Try((attempt + 1) as u32),
    {
        if taken {
            UsernameAction::Try(attempt + 1)
        } else {
            UsernameAction::Claim(self.candidate(email, attempt))
        }
    }

    /// The account provisioned for an SSO identity: never an administrator of any kind, in the
    /// organization signed into, holding the identity's address, created `now` (its tokens
    /// count from then).
    pub fn provisioned_user(
        &self,
        id: u128,
        username: String,
        password_hash: String,
        organization_id: u128,
        email: &str,
        now: i64,
    ) -> (r: User)
        ensures
            r.id == id,
            r.username == username,
            r.password_hash == password_hash,
            !r.is_super_admin,
            !r.is_organization_admin,
            r.organization_id == organization_id,
            r.created_at == now,
            r.tokens_valid_after == now,
            r.email matches Some(e) && e@ == email@,
    {
        User {
            id,
            username,
            password_hash,
            is_super_admin: false,
            is_organization_admin: false,
            organization_id,
            created_at: now,
            tokens_valid_after: now,
            email: Some(String::from_str(email)),
        }
    }
}

} // verus!
