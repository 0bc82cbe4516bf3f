//! Input validation: email, username, password and title checks, and HTML
//! escaping of free-form input.
use vstd::prelude::*;
use vstd::string::StringSliceAdditionalSpecFns;
use crate::text::chars_of;

verus! {

/// True for an ASCII letter.
pub open spec fn is_alpha_char(c: char) -> bool {
    (97 <= c as u32 <= 122) || (65 <= c as u32 <= 90)
}

/// True for an ASCII digit.
pub open spec fn is_digit_char(c: char) -> bool {
    48 <= c as u32 <= 57
}

/// True for a character allowed in the local part of an email address.
pub open spec fn is_local_char(c: char) -> bool {
    ||| is_alpha_char(c)
    ||| is_digit_char(c)
    ||| c == '.'
    ||| c == '_'
    ||| c == '%'
    ||| c == '+'
    ||| c == '-'
}

/// True for a character allowed in the domain part of an email address.
pub open spec fn is_domain_char(c: char) -> bool {
    ||| is_alpha_char(c)
    ||| is_digit_char(c)
    ||| c == '.'
    ||| c == '-'
}

/// True for a character allowed in a username.
pub open spec fn is_username_char(c: char) -> bool {
    ||| is_alpha_char(c)
    ||| is_digit_char(c)
    ||| c == '_'
    ||| c == '-'
}

/// True when the split at `i` (the '@') and `j` (the last '.') carves `s`
/// into a non-empty local part, a non-empty domain and a final label of at
/// least two letters.
pub open spec fn email_split(s: Seq<char>, i: int, j: int) -> bool {
    &&& 1 <= i
    &&& i + 2 <= j
    &&& j + 3 <= s.len()
    &&& s[i] == '@'
    &&& s[j] == '.'
    &&& forall|k: int| 0 <= k < i ==> is_local_char(#[trigger] s[k])
    &&& forall|k: int| i < k < j ==> is_domain_char(#[trigger] s[k])
    &&& forall|k: int| j < k < s.len() ==> is_alpha_char(#[trigger] s[k])
}

/// True when `s` has the shape local@domain.label with the characters each
/// part allows.
pub open spec fn email_format(s: Seq<char>) -> bool {
    exists|i: int, j: int| email_split(s, i, j)
}

fn is_local_char_exec(c: char) -> (r: bool)
    ensures
        r == is_local_char(c),
{
    let u = c as u32;
    (97 <= u && u <= 122) || (65 <= u && u <= 90) || (48 <= u && u <= 57) || c == '.' || c == '_'
        || c == '%' || c == '+' || c == '-'
}

fn is_domain_char_exec(c: char) -> (r: bool)
    ensures
        r == is_domain_char(c),
{
    let u = c as u32;
    (97 <= u && u <= 122) || (65 <= u && u <= 90) || (48 <= u && u <= 57) || c == '.' || c == '-'
}

fn is_alpha_char_exec(c: char) -> (r: bool)
    ensures
        r == is_alpha_char(c),
{
    let u = c as u32;
    (97 <= u && u <= 122) || (65 <= u && u <= 90)
}

/// Decides whether `cs` has the email shape.
#[verifier::loop_isolation(false)]
fn email_format_check(cs: &Vec<char>) -> (r: bool)
    ensures
        r == email_format(cs@),
{
    let s = cs;
    let n = s.len();
    // Find the first '@'; everything before it must be a local-part character.
    let mut i: usize = 0;
    while i < n && s[i] != '@'
        invariant
            n == s.len(),
            i <= n,
            forall|k: int| 0 <= k < i ==> is_local_char(#[trigger] s@[k]) && s@[k] != '@',
        decreases n - i,
    {
        if !is_local_char_exec(s[i]) {
            proof {
                assert forall|i0: int, j0: int| !email_split(s@, i0, j0) by {
                    if email_split(s@, i0, j0) {
                        if i0 < i {
                            assert(s@[i0] == '@');
                        } else if i0 == i {
                            assert(s@[i0] == '@');
                        } else {
                            assert(is_local_char(s@[i as int]));
                        }
                    }
                }
            }
            return false;
        }
        i = i + 1;
    }
    if i == n {
        proof {
            assert forall|i0: int, j0: int| !email_split(s@, i0, j0) by {
                if email_split(s@, i0, j0) {
                    assert(0 <= i0 < s@.len());
                    assert(s@[i0] == '@');
                }
            }
        }
        return false;
    }
    if i == 0 {
        proof {
            assert forall|i0: int, j0: int| !email_split(s@, i0, j0) by {
                if email_split(s@, i0, j0) {
                    assert(is_local_char(s@[0]));
                    assert(s@[0] == '@');
                }
            }
        }
        return false;
    }
    // From here on, any admissible split must use this '@' position.
    proof {
        assert forall|i0: int, j0: int| email_split(s@, i0, j0) implies i0 == i by {
            if i0 < i {
                assert(s@[i0] == '@');
            } else if i0 > i {
                assert(is_local_char(s@[i as int]));
                assert(s@[i as int] == '@');
            }
        }
    }
    // Find the last '.'; everything after it must be a letter, so any
    // admissible split must use the last '.' of the whole string.
    let mut j: usize = n;
    let mut m: usize = n;
    while m > i + 1 && j == n
        invariant
            n == s.len(),
            i + 1 <= m <= n,
            j <= n,
            j == n ==> forall|k: int| m <= k < n ==> s@[k] != '.',
            j < n ==> m <= j < n && s@[j as int] == '.' && (forall|k: int|
                j < k < n ==> s@[k] != '.'),
        decreases m,
    {
        m = m - 1;
        if s[m] == '.' {
            j = m;
        }
    }
    if j == n {
        proof {
            assert forall|i0: int, j0: int| !email_split(s@, i0, j0) by {
                if email_split(s@, i0, j0) {
                    assert(i0 == i);
                    assert(s@[j0] == '.');
                }
            }
        }
        return false;
    }
    proof {
        assert forall|i0: int, j0: int| email_split(s@, i0, j0) implies i0 == i && j0 == j by {
            assert(i0 == i);
            assert(s@[j0] == '.');
            if j0 < j {
                assert(is_alpha_char(s@[j as int]));
                assert(s@[j as int] == '.');
            } else if j0 > j {
                assert(s@[j0] != '.');
            }
        }
    }
    // Check the remaining conditions for the split (i, j).
    if j < i + 2 || n - j < 3 {
        proof {
            assert(!email_split(s@, i as int, j as int));
        }
        return false;
    }
    let mut k: usize = i + 1;
    while k < j
        invariant
            n == s.len(),
            i < k <= j <= n,
            forall|t: int| i < t < k ==> is_domain_char(#[trigger] s@[t]),
        decreases j - k,
    {
        if !is_domain_char_exec(s[k]) {
            proof {
                assert(!is_domain_char(s@[k as int]));
                assert(!email_split(s@, i as int, j as int));
            }
            return false;
        }
        k = k + 1;
    }
    let mut k2: usize = j + 1;
    while k2 < n
        invariant
            n == s.len(),
            j < k2 <= n,
            forall|t: int| j < t < k2 ==> is_alpha_char(#[trigger] s@[t]),
        decreases n - k2,
    {
        if !is_alpha_char_exec(s[k2]) {
            proof {
                assert(!is_alpha_char(s@[k2 as int]));
                assert(!email_split(s@, i as int, j as int));
            }
            return false;
        }
        k2 = k2 + 1;
    }
    proof {
        assert(email_split(s@, i as int, j as int));
    }
    true
}

/// Checks that an email address is present, shaped as local@domain.label,
/// and at most 100 bytes long, in that order.
pub fn validate_email(email: &str) -> (r: Result<(), String>)
    ensures
        r is Ok <==> email@.len() > 0 && email_format(email@) && email.spec_bytes().len() <= 100,
        email@.len() == 0 ==> (r matches Err(m) && m@ == "Email is required"@),
        email@.len() > 0 && !email_format(email@) ==> (r matches Err(m) && m@
            == "Invalid email format"@),
        email@.len() > 0 && email_format(email@) && email.spec_bytes().len() > 100 ==> (r matches
            Err(m) && m@ == "Email is too long (max 100 characters)"@),
{
    let cs = chars_of(email);
    if cs.len() == 0 {
        return Err(String::from_str("Email is required"));
    }
    if !email_format_check(&cs) {
        return Err(String::from_str("Invalid email format"));
    }
    if email.as_bytes().len() > 100 {
        return Err(String::from_str("Email is too long (max 100 characters)"));
    }
    Ok(())
}

/// Checks that a username is present and is 3 to 20 letters, digits,
/// underscores or hyphens.
pub fn validate_username(username: &str) -> (r: Result<(), String>)
    ensures
        r is Ok <==> 3 <= username@.len() <= 20 && (forall|k: int|
            0 <= k < username@.len() ==> is_username_char(#[trigger] username@[k])),
        username@.len() == 0 ==> (r matches Err(m) && m@ == "Username is required"@),
        username@.len() > 0 && !(r is Ok) ==> (r matches Err(m) && m@
            == "Username must be 3-20 characters and contain only letters, numbers, underscores, and hyphens"@),
{
    let cs = chars_of(username);
    if cs.len() == 0 {
        return Err(String::from_str("Username is required"));
    }
    if cs.len() < 3 || cs.len() > 20 {
        return Err(
            String::from_str(
                "Username must be 3-20 characters and contain only letters, numbers, underscores, and hyphens",
            ),
        );
    }
    let mut k: usize = 0;
    while k < cs.len()
        invariant
            cs@ == username@,
            k <= cs.len(),
            forall|t: int| 0 <= t < k ==> is_username_char(#[trigger] cs@[t]),
        decreases cs.len() - k,
    {
        let c = cs[k];
        let u = c as u32;
        if !((97 <= u && u <= 122) || (65 <= u && u <= 90) || (48 <= u && u <= 57) || c == '_' || c
            == '-') {
            return Err(
                String::from_str(
                    "Username must be 3-20 characters and contain only letters, numbers, underscores, and hyphens",
                ),
            );
        }
        k = k + 1;
    }
    Ok(())
}

/// Whether a character counts as numeric, as char::is_numeric decides it;
/// a function of the character alone.
pub uninterp spec fn char_is_numeric(c: char) -> bool;

/// Whether a character counts as uppercase, as char::is_uppercase decides
/// it; a function of the character alone.
pub uninterp spec fn char_is_uppercase(c: char) -> bool;

/// Whether a character counts as lowercase, as char::is_lowercase decides
/// it; a function of the character alone.
pub uninterp spec fn char_is_lowercase(c: char) -> bool;

/// Relies on char::is_numeric: the Unicode numeric property of the character.
pub assume_specification[ char::is_numeric ](c: char) -> (r: bool)
    ensures
        r == char_is_numeric(c),
;

/// Relies on char::is_uppercase: the Unicode uppercase property of the
/// character.
pub assume_specification[ char::is_uppercase ](c: char) -> (r: bool)
    ensures
        r == char_is_uppercase(c),
;

/// Relies on char::is_lowercase: the Unicode lowercase property of the
/// character.
pub assume_specification[ char::is_lowercase ](c: char) -> (r: bool)
    ensures
        r == char_is_lowercase(c),
;

/// True when some character of `s` satisfies the numeric class.
pub open spec fn has_numeric(s: Seq<char>) -> bool {
    exists|k: int| 0 <= k < s.len() && char_is_numeric(s[k])
}

/// True when some character of `s` satisfies the uppercase class.
pub open spec fn has_uppercase(s: Seq<char>) -> bool {
    exists|k: int| 0 <= k < s.len() && char_is_uppercase(s[k])
}

/// True when some character of `s` satisfies the lowercase class.
pub open spec fn has_lowercase(s: Seq<char>) -> bool {
    exists|k: int| 0 <= k < s.len() && char_is_lowercase(s[k])
}

/// Checks that a password is present, 8 to 100 bytes long, and holds at
/// least one numeric, one uppercase and one lowercase character.
pub fn validate_password(password: &str) -> (r: Result<(), String>)
    ensures
        r is Ok <==> 8 <= password.spec_bytes().len() <= 100 && has_numeric(password@)
            && has_uppercase(password@) && has_lowercase(password@),
        password@.len() == 0 ==> (r matches Err(m) && m@ == "Password is required"@),
        password@.len() > 0 && password.spec_bytes().len() < 8 ==> (r matches Err(m) && m@
            == "Password must be at least 8 characters"@),
        password.spec_bytes().len() > 100 ==> (r matches Err(m) && m@
            == "Password is too long (max 100 characters)"@),
        8 <= password.spec_bytes().len() <= 100 && !(has_numeric(password@) && has_uppercase(
            password@,
        ) && has_lowercase(password@)) ==> (r matches Err(m) && m@
            == "Password must contain at least one number, one uppercase letter, and one lowercase letter"@),
{
    if password.is_empty() {
        return Err(String::from_str("Password is required"));
    }
    if password.as_bytes().len() < 8 {
        return Err(String::from_str("Password must be at least 8 characters"));
    }
    if password.as_bytes().len() > 100 {
        return Err(String::from_str("Password is too long (max 100 characters)"));
    }
    let cs = chars_of(password);
    let mut found_number = false;
    let mut found_upper = false;
    let mut found_lower = false;
    let mut k: usize = 0;
    while k < cs.len()
        invariant
            cs@ == password@,
            k <= cs.len(),
            found_number == exists|t: int| 0 <= t < k && char_is_numeric(#[trigger] cs@[t]),
            found_upper == exists|t: int| 0 <= t < k && char_is_uppercase(#[trigger] cs@[t]),
            found_lower == exists|t: int| 0 <= t < k && char_is_lowercase(#[trigger] cs@[t]),
        decreases cs.len() - k,
    {
        let c = cs[k];
        if c.is_numeric() {
            found_number = true;
        }
        if c.is_uppercase() {
            found_upper = true;
        }
        if c.is_lowercase() {
            found_lower = true;
        }
        k = k + 1;
    }
    if !found_number || !found_upper || !found_lower {
        return Err(
            String::from_str(
                "Password must contain at least one number, one uppercase letter, and one lowercase letter",
            ),
        );
    }
    Ok(())
}

/// Whether a character counts as whitespace, as char::is_whitespace decides
/// it; a function of the character alone.
pub uninterp spec fn char_is_whitespace(c: char) -> bool;

/// Relies on char::is_whitespace: the Unicode whitespace property of the
/// character.
pub assume_specification[ char::is_whitespace ](c: char) -> (r: bool)
    ensures
        r == char_is_whitespace(c),
;

/// `s` with its leading whitespace removed.
pub open spec fn trim_start_spec(s: Seq<char>) -> Seq<char>
    decreases s.len(),
{
    if s.len() > 0 && char_is_whitespace(s[0]) {
        trim_start_spec(s.drop_first())
    } else {
        s
    }
}

/// `s` with its trailing whitespace removed.
pub open spec fn trim_end_spec(s: Seq<char>) -> Seq<char>
    decreases s.len(),
{
    if s.len() > 0 && char_is_whitespace(s[s.len() - 1]) {
        trim_end_spec(s.drop_last())
    } else {
        s
    }
}

/// `s` with whitespace removed from both ends.
pub open spec fn trim_spec(s: Seq<char>) -> Seq<char> {
    trim_end_spec(trim_start_spec(s))
}

/// The characters of `cs` with whitespace removed from both ends.
fn trim_chars(cs: &Vec<char>) -> (r: Vec<char>)
    ensures
        r@ == trim_spec(cs@),
{
    let n = cs.len();
    let mut a: usize = 0;
    proof {
        assert(cs@.skip(0) =~= cs@);
    }
    while a < n && cs[a].is_whitespace()
        invariant
            n == cs.len(),
            a <= n,
            trim_start_spec(cs@) == trim_start_spec(cs@.skip(a as int)),
        decreases n - a,
    {
        a = a + 1;
        proof {
            assert(cs@.skip(a - 1).drop_first() =~= cs@.skip(a as int));
        }
    }
    proof {
        if a < n {
            assert(trim_start_spec(cs@.skip(a as int)) == cs@.skip(a as int));
        } else {
            assert(cs@.skip(a as int) =~= Seq::<char>::empty());
        }
    }
    let mut b: usize = n;
    proof {
        assert(cs@.subrange(a as int, n as int) =~= cs@.skip(a as int));
    }
    while b > a && cs[b - 1].is_whitespace()
        invariant
            n == cs.len(),
            a <= b <= n,
            trim_start_spec(cs@) == cs@.skip(a as int),
            trim_end_spec(cs@.skip(a as int)) == trim_end_spec(cs@.subrange(a as int, b as int)),
        decreases b,
    {
        b = b - 1;
        proof {
            assert(cs@.subrange(a as int, b + 1).drop_last() =~= cs@.subrange(a as int, b as int));
        }
    }
    proof {
        if b > a {
            assert(trim_end_spec(cs@.subrange(a as int, b as int)) == cs@.subrange(
                a as int,
                b as int,
            ));
        } else {
            assert(cs@.subrange(a as int, b as int) =~= Seq::<char>::empty());
        }
    }
    let mut r: Vec<char> = Vec::new();
    let mut k: usize = a;
    while k < b
        invariant
            n == cs.len(),
            a <= k <= b <= n,
            r@ == cs@.subrange(a as int, k as int),
        decreases b - k,
    {
        r.push(cs[k]);
        k = k + 1;
        proof {
            assert(cs@.subrange(a as int, k as int) =~= cs@.subrange(a as int, k - 1).push(
                cs@[k - 1],
            ));
        }
    }
    r
}

/// The escaped form of one character: the HTML entity for the five
/// characters that are escaped, the character itself otherwise.
pub open spec fn esc_char(c: char) -> Seq<char> {
    if c == '<' {
        seq!['&', 'l', 't', ';']
    } else if c == '>' {
        seq!['&', 'g', 't', ';']
    } else if c == '"' {
        seq!['&', 'q', 'u', 'o', 't', ';']
    } else if c == '\'' {
        seq!['&', '#', 'x', '2', '7', ';']
    } else if c == '/' {
        seq!['&', '#', 'x', '2', 'F', ';']
    } else {
        seq![c]
    }
}

/// The escaped form of a character sequence.
pub open spec fn escape_seq(s: Seq<char>) -> Seq<char>
    decreases s.len(),
{
    if s.len() == 0 {
        Seq::empty()
    } else {
        escape_seq(s.drop_last()) + esc_char(s.last())
    }
}

/// The sanitized form of `s` under length cap `max`: trim, truncate to
/// `max` characters, then escape.
pub open spec fn sanitize_spec(s: Seq<char>, max: int) -> Seq<char> {
    let t = trim_spec(s);
    let cut = if max < t.len() {
        max
    } else {
        t.len() as int
    };
    escape_seq(t.take(cut))
}

/// Trims `input`, truncates it to `max_length` characters, and escapes the
/// characters HTML treats specially.
pub fn sanitize_string(input: &str, max_length: usize) -> (r: String)
    ensures
        r@ == sanitize_spec(input@, max_length as int),
{
    let cs = chars_of(input);
    let trimmed = trim_chars(&cs);
    let cut = if max_length < trimmed.len() {
        max_length
    } else {
        trimmed.len()
    };
    let mut out = String::new();
    let mut k: usize = 0;
    proof {
        assert(trimmed@.take(0) =~= Seq::<char>::empty());
    }
    while k < cut
        invariant
            cut <= trimmed.len(),
            k <= cut,
            out@ == escape_seq(trimmed@.take(k as int)),
        decreases cut - k,
    {
        let c = trimmed[k];
        if c == '<' {
            out.push('&');
            out.push('l');
            out.push('t');
            out.push(';');
        } else if c == '>' {
            out.push('&');
            out.push('g');
            out.push('t');
            out.push(';');
        } else if c == '"' {
            out.push('&');
            out.push('q');
            out.push('u');
            out.push('o');
            out.push('t');
            out.push(';');
        } else if c == '\'' {
            out.push('&');
            out.push('#');
            out.push('x');
            out.push('2');
            out.push('7');
            out.push(';');
        } else if c == '/' {
            out.push('&');
            out.push('#');
            out.push('x');
            out.push('2');
            out.push('F');
            out.push(';');
        } else {
            out.push(c);
        }
        k = k + 1;
        proof {
            assert(trimmed@.take(k as int).drop_last() =~= trimmed@.take(k - 1));
            assert(out@ =~= escape_seq(trimmed@.take(k - 1)) + esc_char(trimmed@[k - 1]));
        }
    }
    out
}

/// Checks that a manga title is non-blank and at most 200 bytes long.
pub fn validate_manga_title(title: &str) -> (r: Result<(), String>)
    ensures
        r is Ok <==> trim_spec(title@).len() > 0 && title.spec_bytes().len() <= 200,
        trim_spec(title@).len() == 0 ==> (r matches Err(m) && m@ == "Manga title is required"@),
        trim_spec(title@).len() > 0 && title.spec_bytes().len() > 200 ==> (r matches Err(m) && m@
            == "Manga title is too long (max 200 characters)"@),
{
    let cs = chars_of(title);
    let trimmed = trim_chars(&cs);
    if trimmed.len() == 0 {
        return Err(String::from_str("Manga title is required"));
    }
    if title.as_bytes().len() > 200 {
        return Err(String::from_str("Manga title is too long (max 200 characters)"));
    }
    Ok(())
}

} // verus!
