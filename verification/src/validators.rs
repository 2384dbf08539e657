//! Input validation for sign-up data: email addresses and password strength.

use vstd::prelude::*;

use crate::bytes::subvec;
use crate::numdec::{push_dec, spec_dec, lemma_dec_round_trip, is_dec_digit, valid_dec};
use crate::strutil::{
    ascii_to_string, char_is_lowercase, char_is_numeric, char_is_uppercase, chars_to_string,
    is_lowercase_char, is_numeric_char, is_uppercase_char, lower_of, str_chars, str_lowercase,
};
use vstd::string::StringExecFns;

verus! {

/// The outcome of a validation: valid, or a human-readable reason.
#[derive(Debug)]
pub enum Validity {
    Valid,
    Invalid(String),
}

impl Validity {
    /// Whether the validated value was accepted.
    pub fn is_valid(&self) -> (r: bool)
        ensures
            r == (self is Valid),
    {
        match self {
            Validity::Valid => true,
            Validity::Invalid(_) => false,
        }
    }
}

/// A character an email address may not contain: a space, or anything
/// outside ASCII.
pub open spec fn email_bad_char(c: char) -> bool {
    c == ' ' || (c as u32) > 127
}

/// Is `i` the index of the first `@` of `s`?
pub open spec fn is_first_at(s: Seq<char>, i: int) -> bool {
    &&& 0 <= i < s.len()
    &&& s[i] == '@'
    &&& forall|j: int| 0 <= j < i ==> s[j] != '@'
}

/// The username and domain parts of a split email are acceptable.
pub open spec fn email_parts_ok(u: Seq<char>, d: Seq<char>) -> bool {
    &&& u.len() > 0
    &&& d.len() >= 3
    &&& forall|i: int| 0 <= i < d.len() ==> d[i] != '@'
    &&& exists|i: int| 0 <= i < d.len() && d[i] == '.'
    &&& d[d.len() - 1] != '.'
}

/// A valid email address: ASCII without spaces, no `@.`, exactly one `@`
/// splitting a nonempty username from a domain of at least three characters
/// that contains a period and does not end with one.
pub open spec fn email_valid(s: Seq<char>) -> bool {
    &&& forall|i: int| 0 <= i < s.len() ==> !email_bad_char(#[trigger] s[i])
    &&& !(exists|i: int| 0 <= i && i + 1 < s.len() && s[i] == '@' && #[trigger] s[i + 1] == '.')
    &&& exists|i: int|
        #[trigger] is_first_at(s, i) && email_parts_ok(s.take(i), s.skip(i + 1))
}

/// Checks an email address against the rules of [`email_valid`].
#[verifier::loop_isolation(false)]
pub fn validate_email_address(email: &str) -> (r: Validity)
    ensures
        r is Valid <==> email_valid(email@),
{
    let cs = str_chars(email);
    let n = cs.len();
    let mut i: usize = 0;
    while i < n
        invariant
            n == cs@.len(),
            cs@ == email@,
            i <= n,
            forall|j: int| 0 <= j < i ==> !email_bad_char(#[trigger] cs@[j]),
        decreases n - i,
    {
        let c = cs[i];
        if c == ' ' || (c as u32) > 127 {
            return Validity::Invalid("Email address cannot contain a space.".to_owned());
        }
        i += 1;
    }
    if n > 0 {
        let m = n - 1;
        let mut i: usize = 0;
        while i < m
            invariant
                n == cs@.len(),
                cs@ == email@,
                m == n - 1,
                i <= m,
                forall|j: int| 0 <= j < i && cs@[j] == '@' ==> #[trigger] cs@[j + 1] != '.',
            decreases m - i,
        {
            if cs[i] == '@' && cs[i + 1] == '.' {
                return Validity::Invalid(
                    "Domain name in email address cannot begin with a period.".to_owned(),
                );
            }
            i += 1;
        }
    }
    assert(!(exists|j: int|
        0 <= j && j + 1 < email@.len() && email@[j] == '@' && #[trigger] email@[j + 1] == '.'));
    let mut at: usize = 0;
    let mut found_at = false;
    let mut i: usize = 0;
    while i < n && !found_at
        invariant
            n == cs@.len(),
            cs@ == email@,
            i <= n,
            !found_at ==> forall|j: int| 0 <= j < i ==> cs@[j] != '@',
            found_at ==> is_first_at(email@, at as int),
        decreases n - i + (if found_at { 0int } else { 1int }),
    {
        if cs[i] == '@' {
            at = i;
            found_at = true;
        } else {
            i += 1;
        }
    }
    if !found_at {
        assert(forall|j: int| 0 <= j < email@.len() ==> email@[j] != '@');
        assert(forall|j: int| !is_first_at(email@, j));
        return Validity::Invalid("Email address must contain an at symbol (@).".to_owned());
    }
    assert(forall|j: int| is_first_at(email@, j) ==> j == at as int);
    let ghost u = email@.take(at as int);
    let ghost d = email@.skip(at as int + 1);
    if at == 0 || n - (at + 1) < 3 {
        assert(u.len() == 0 || d.len() < 3);
        return Validity::Invalid("Email username or domain name is to short.".to_owned());
    }
    assert(u.len() > 0 && d.len() >= 3);
    let mut has_dot = false;
    let mut i: usize = at + 1;
    while i < n
        invariant
            n == cs@.len(),
            cs@ == email@,
            at + 1 <= i <= n,
            d == email@.skip(at as int + 1),
            forall|j: int| at + 1 <= j < i ==> cs@[j] != '@',
            has_dot <==> exists|j: int| at + 1 <= j < i && cs@[j] == '.',
        decreases n - i,
    {
        if cs[i] == '@' {
            assert(d[i - (at + 1)] == '@');
            assert(!email_parts_ok(u, d));
            return Validity::Invalid(
                "Email address must have only one at symbol (@) and the domain must contain a period.".to_owned(),
            );
        }
        if cs[i] == '.' {
            has_dot = true;
        }
        i += 1;
    }
    if !has_dot {
        assert(forall|j: int| 0 <= j < d.len() ==> #[trigger] d[j] != '.') by {
            assert(forall|j: int| at + 1 <= j < n ==> #[trigger] cs@[j] != '.');
        }
        assert(!email_parts_ok(u, d));
        return Validity::Invalid(
            "Email address must have only one at symbol (@) and the domain must contain a period.".to_owned(),
        );
    }
    if cs[n - 1] == '.' {
        assert(d[d.len() - 1] == '.');
        assert(!email_parts_ok(u, d));
        return Validity::Invalid("Email address cannot end with a period.".to_owned());
    }
    assert(email_parts_ok(u, d)) by {
        assert(forall|j: int| 0 <= j < d.len() ==> #[trigger] d[j] != '@');
        let w = choose|j: int| at + 1 <= j < n && cs@[j] == '.';
        assert(d[w - (at + 1)] == '.');
        assert(d[d.len() - 1] == cs@[n - 1]);
    }
    Validity::Valid
}

/// An ASCII punctuation character.
pub open spec fn is_ascii_punct(c: char) -> bool {
    (33 <= c as u32 && c as u32 <= 47) || (58 <= c as u32 && c as u32 <= 64) || (91 <= c as u32
        && c as u32 <= 96) || (123 <= c as u32 && c as u32 <= 126)
}

/// The character-class flags after scanning `s`, starting from the given
/// flags.  Each character raises at most the first still-lowered flag it
/// matches, in the order lowercase, uppercase, numeric, punctuation.
pub open spec fn scan_flags(s: Seq<char>, lo: bool, up: bool, num: bool, pu: bool) -> (
    bool,
    bool,
    bool,
    bool,
)
    decreases s.len(),
{
    if s.len() == 0 {
        (lo, up, num, pu)
    } else {
        let c = s.first();
        if !lo && char_is_lowercase(c) {
            scan_flags(s.drop_first(), true, up, num, pu)
        } else if !up && char_is_uppercase(c) {
            scan_flags(s.drop_first(), lo, true, num, pu)
        } else if !num && char_is_numeric(c) {
            scan_flags(s.drop_first(), lo, up, true, pu)
        } else if !pu && is_ascii_punct(c) {
            scan_flags(s.drop_first(), lo, up, num, true)
        } else {
            scan_flags(s.drop_first(), lo, up, num, pu)
        }
    }
}

/// Does `h` contain `n` as a contiguous subsequence?
pub open spec fn spec_contains_seq(h: Seq<char>, n: Seq<char>) -> bool {
    exists|i: int| 0 <= i <= h.len() - n.len() && #[trigger] h.subrange(i, i + n.len()) == n
}

/// The word no password may contain.
pub open spec fn password_word() -> Seq<char> {
    seq!['p', 'a', 's', 's', 'w', 'o', 'r', 'd']
}

/// The username part of an email: everything before the first `@`, or the
/// whole address when there is none.
pub open spec fn spec_email_username(e: Seq<char>) -> Seq<char> {
    if exists|i: int| is_first_at(e, i) {
        e.take(choose|i: int| is_first_at(e, i))
    } else {
        e
    }
}

/// A strong password: at least the minimum number of characters (the
/// minimum deliberately counts characters, not encoded bytes; the two only
/// differ outside ASCII); not containing the word "password", the
/// user's first or last name, or the username of the email address (all
/// compared lowercased); holding a lowercase letter, an uppercase letter, a
/// digit, and an ASCII punctuation character, counted as [`scan_flags`]
/// counts them.
pub open spec fn password_valid(
    p: Seq<char>,
    e: Seq<char>,
    f: Seq<char>,
    l: Seq<char>,
    min_len: int,
) -> bool {
    let lp = lower_of(p);
    let flags = scan_flags(p, false, false, false, false);
    &&& p.len() >= min_len
    &&& !spec_contains_seq(lp, password_word())
    &&& flags.0
    &&& flags.1
    &&& flags.2
    &&& flags.3
    &&& !spec_contains_seq(lp, lower_of(f))
    &&& !spec_contains_seq(lp, lower_of(l))
    &&& !spec_contains_seq(lp, lower_of(spec_email_username(e)))
}

/// Do the characters of `nd` stand at `off` in `h`?
fn chars_match_at(h: &Vec<char>, off: usize, nd: &Vec<char>) -> (r: bool)
    requires
        off + nd@.len() <= h@.len(),
    ensures
        r == (h@.subrange(off as int, off + nd@.len()) == nd@),
{
    let n = nd.len();
    let hn = h.len();
    let mut i: usize = 0;
    while i < n
        invariant
            off + n <= hn == h@.len(),
            n == nd@.len(),
            i <= n,
            forall|j: int| 0 <= j < i ==> h@[off + j] == nd@[j],
        decreases n - i,
    {
        if h[off + i] != nd[i] {
            assert(h@.subrange(off as int, off + nd@.len())[i as int] == h@[off + i]);
            return false;
        }
        i += 1;
    }
    assert(h@.subrange(off as int, off + nd@.len()) =~= nd@);
    true
}

/// Does `h` contain `nd` as a contiguous run?
pub fn contains_seq(h: &Vec<char>, nd: &Vec<char>) -> (r: bool)
    ensures
        r == spec_contains_seq(h@, nd@),
{
    let hn = h.len();
    let nn = nd.len();
    if nn > hn {
        return false;
    }
    if nn == 0 {
        assert(spec_contains_seq(h@, nd@)) by {
            assert(h@.subrange(0, 0 + nd@.len() as int) =~= nd@);
        }
        return true;
    }
    let mut i: usize = 0;
    while i <= hn - nn
        invariant
            1 <= nn <= hn == h@.len(),
            nn == nd@.len(),
            i <= hn - nn + 1,
            forall|j: int| 0 <= j < i ==> #[trigger] h@.subrange(j, j + nd@.len()) != nd@,
        decreases hn - nn + 1 - i,
    {
        if chars_match_at(h, i, nd) {
            return true;
        }
        i += 1;
    }
    false
}

/// The lowercased characters of a string.
fn lower_chars_of(s: &str) -> (r: Vec<char>)
    ensures
        r@ == lower_of(s@),
{
    let low = str_lowercase(s);
    str_chars(low.as_str())
}

/// Checks a password against the rules of [`password_valid`].
#[verifier::loop_isolation(false)]
pub fn validate_strong_password(
    password: &str,
    email: &str,
    first_name: &str,
    last_name: &str,
    min_password_len: usize,
) -> (r: Validity)
    ensures
        r is Valid <==> password_valid(
            password@,
            email@,
            first_name@,
            last_name@,
            min_password_len as int,
        ),
{
    let pcs = str_chars(password);
    let n = pcs.len();
    if n < min_password_len {
        let mut msg = "Password must be at least ".to_owned();
        let mut digits: Vec<u8> = Vec::new();
        push_dec(&mut digits, min_password_len as u64);
        proof {
            lemma_dec_round_trip(min_password_len as u64);
            assert(valid_dec(digits@));
            assert(forall|i: int| 0 <= i < digits@.len() ==> digits@[i] < 128) by {
                assert(forall|i: int|
                    0 <= i < digits@.len() ==> is_dec_digit(#[trigger] digits@[i]));
            }
        }
        let digit_str = ascii_to_string(&digits);
        msg.append(digit_str.as_str());
        msg.append(" characters long.");
        return Validity::Invalid(msg);
    }
    let lp = lower_chars_of(password);
    let mut word: Vec<char> = Vec::new();
    word.push('p');
    word.push('a');
    word.push('s');
    word.push('s');
    word.push('w');
    word.push('o');
    word.push('r');
    word.push('d');
    assert(word@ =~= password_word());
    if contains_seq(&lp, &word) {
        return Validity::Invalid("Password must not contain the word \"password.\"".to_owned());
    }
    let mut lo = false;
    let mut up = false;
    let mut num = false;
    let mut pu = false;
    let mut i: usize = 0;
    assert(pcs@.skip(0) == pcs@);
    while i < n
        invariant
            n == pcs@.len(),
            pcs@ == password@,
            i <= n,
            scan_flags(pcs@.skip(i as int), lo, up, num, pu) == scan_flags(
                pcs@,
                false,
                false,
                false,
                false,
            ),
        decreases n - i,
    {
        let c = pcs[i];
        assert(pcs@.skip(i as int).first() == c);
        if !lo && is_lowercase_char(c) {
            lo = true;
        } else if !up && is_uppercase_char(c) {
            up = true;
        } else if !num && is_numeric_char(c) {
            num = true;
        } else if !pu && {
            let v = c as u32;
            (33 <= v && v <= 47) || (58 <= v && v <= 64) || (91 <= v && v <= 96) || (123 <= v && v
                <= 126)
        } {
            pu = true;
        }
        assert(pcs@.skip(i as int).drop_first() =~= pcs@.skip(i + 1));
        i += 1;
    }
    assert(pcs@.skip(n as int) =~= Seq::<char>::empty());
    if !lo {
        return Validity::Invalid(
            "Password must contain at least one lowercase letter.".to_owned(),
        );
    }
    if !up {
        return Validity::Invalid(
            "Password must contain at least one uppercase letter.".to_owned(),
        );
    }
    if !num {
        return Validity::Invalid("Password must contain at least one number.".to_owned());
    }
    if !pu {
        return Validity::Invalid(
            "Password must contain at least one of the following: ! ? @ $ % - & + # * ( ) \" ' , . / : ; < = > [ \\ ] ^ _ { | } ~".to_owned(),
        );
    }
    let lf = lower_chars_of(first_name);
    if contains_seq(&lp, &lf) {
        return Validity::Invalid("Password must not contain your first name.".to_owned());
    }
    let ll = lower_chars_of(last_name);
    if contains_seq(&lp, &ll) {
        return Validity::Invalid("Password must not contain your last name.".to_owned());
    }
    let ecs = str_chars(email);
    let en = ecs.len();
    let mut at: usize = 0;
    let mut found_at = false;
    let mut i: usize = 0;
    while i < en && !found_at
        invariant
            en == ecs@.len(),
            ecs@ == email@,
            i <= en,
            !found_at ==> forall|j: int| 0 <= j < i ==> ecs@[j] != '@',
            found_at ==> is_first_at(email@, at as int),
        decreases en - i + (if found_at { 0int } else { 1int }),
    {
        if ecs[i] == '@' {
            at = i;
            found_at = true;
        } else {
            i += 1;
        }
    }
    let username: Vec<char> = if found_at {
        proof {
            assert(forall|j: int| is_first_at(email@, j) ==> j == at as int);
            assert(spec_email_username(email@) == email@.take(at as int));
        }
        subvec(ecs.as_slice(), 0, at)
    } else {
        proof {
            assert(forall|j: int| 0 <= j < email@.len() ==> email@[j] != '@');
            assert(forall|j: int| !is_first_at(email@, j));
            assert(spec_email_username(email@) == email@);
        }
        subvec(ecs.as_slice(), 0, en)
    };
    assert(username@ =~= spec_email_username(email@));
    let username_str = chars_to_string(&username);
    let lu = lower_chars_of(username_str.as_str());
    if contains_seq(&lp, &lu) {
        return Validity::Invalid("Password must not contain your email username.".to_owned());
    }
    Validity::Valid
}

} // verus!
