//! Facts about the host and the small texts that name them to podman.

use crate::text::{cat5, chars_of, trim, trimmed, CharSet};
use vstd::prelude::*;
use vstd::utf8::*;

verus! {

/// The unprivileged user inside the container.
pub const AGENT_USER: &'static str = "agent";

/// The home of that user.
pub const AGENT_HOME: &'static str = "/home/agent";

/// The variables through which the entrypoint learns which identity to drop to.
pub const AGENT_UID_ENV: &'static str = "PITHOS_AGENT_UID";

pub const AGENT_GID_ENV: &'static str = "PITHOS_AGENT_GID";

/// How a bind mount is written for podman.
pub open spec fn volume_text(source: Seq<char>, target: Seq<char>, read_only: bool) -> Seq<char> {
    source + ":"@ + target + ":"@ + (if read_only {
        "ro"@
    } else {
        "rw"@
    })
}

pub fn volume_spec(source: &str, target: &str, read_only: bool) -> (r: String)
    ensures
        r@ == volume_text(source@, target@, read_only),
{
    let mode = if read_only {
        "ro"
    } else {
        "rw"
    };
    cat5(source, ":", target, ":", mode)
}

/// The path that stands for "no file" when two files are compared.
pub fn null_device(windows: bool) -> (r: String)
    ensures
        r@ == (if windows {
            "NUL"@
        } else {
            "/dev/null"@
        }),
{
    if windows {
        "NUL".to_owned()
    } else {
        "/dev/null".to_owned()
    }
}

/// What `String::from_utf8_lossy` makes of a sequence of bytes.
pub uninterp spec fn lossy_text(bytes: Seq<u8>) -> Seq<char>;

/// Reads bytes as text with `String::from_utf8_lossy`. Bytes that are UTF-8
/// give the text that they encode; of the others only the name is known.
#[verifier::external_body]
pub(crate) fn decode_lossy(bytes: &[u8]) -> (r: String)
    ensures
        r@ == lossy_text(bytes@),
        valid_utf8(bytes@) ==> r@ == decode_utf8(bytes@),
{
    String::from_utf8_lossy(bytes).into_owned()
}

pub open spec fn is_digit(c: char) -> bool {
    '0' <= c <= '9'
}

pub open spec fn digit_value(c: char) -> int {
    c as int - '0' as int
}

/// The number that a run of decimal digits denotes.
pub open spec fn digits_value(digits: Seq<char>) -> int
    decreases digits.len(),
{
    if digits.len() == 0 {
        0
    } else {
        digits_value(digits.drop_last()) * 10 + digit_value(digits.last())
    }
}

pub open spec fn all_digits(text: Seq<char>) -> bool {
    forall|i: int| 0 <= i < text.len() ==> is_digit(#[trigger] text[i])
}

/// The digits of a number: what follows a plus sign, if there is one.
pub open spec fn unsigned_digits(text: Seq<char>) -> Seq<char> {
    if text.len() > 0 && text[0] == '+' {
        text.skip(1)
    } else {
        text
    }
}

/// The number that `text` denotes, if it denotes one up to `limit`.
pub open spec fn unsigned_value(text: Seq<char>, limit: int) -> Option<int> {
    let digits = unsigned_digits(text);
    if digits.len() > 0 && all_digits(digits) && digits_value(digits) <= limit {
        Some(digits_value(digits))
    } else {
        None
    }
}

proof fn lemma_digits_value_grows(digits: Seq<char>, n: int)
    requires
        all_digits(digits),
        0 <= n <= digits.len(),
    ensures
        0 <= digits_value(digits.take(n)) <= digits_value(digits),
    decreases digits.len(),
{
    if n == digits.len() {
        assert(digits.take(n) =~= digits);
        if n > 0 {
            let front = digits.drop_last();
            assert(all_digits(front)) by {
                assert forall|i: int| 0 <= i < front.len() implies is_digit(
                    #[trigger] front[i],
                ) by {
                    assert(is_digit(digits[i]));
                }
            }
            lemma_digits_value_grows(front, n - 1);
            assert(front.take(n - 1) =~= front);
            assert(is_digit(digits[n - 1]));
        }
    } else {
        let front = digits.drop_last();
        assert(all_digits(front)) by {
            assert forall|i: int| 0 <= i < front.len() implies is_digit(#[trigger] front[i]) by {
                assert(is_digit(digits[i]));
            }
        }
        lemma_digits_value_grows(front, n);
        assert(front.take(n) =~= digits.take(n));
        assert(is_digit(digits[digits.len() - 1]));
        lemma_digits_value_grows(front, front.len() as int);
        assert(front.take(front.len() as int) =~= front);
    }
}

/// Reads an unsigned decimal number of at most `limit`.
pub fn parse_unsigned(text: &str, limit: u64) -> (r: Option<u64>)
    ensures
        (match r {
            Some(n) => unsigned_value(text@, limit as int) == Some(n as int),
            None => unsigned_value(text@, limit as int) is None,
        }),
{
    let chars = chars_of(text);
    let start: usize = if chars.len() > 0 && chars[0] == '+' {
        1
    } else {
        0
    };
    let ghost digits = unsigned_digits(text@);
    assert(digits =~= chars@.skip(start as int));
    if start == chars.len() {
        return None;
    }
    let mut value: u128 = 0;
    let mut i: usize = start;
    assert(digits.take(0) =~= Seq::empty());
    while i < chars.len()
        invariant
            chars@ == text@,
            start <= i <= chars@.len(),
            digits == chars@.skip(start as int),
            digits == unsigned_digits(text@),
            value == digits_value(digits.take(i - start)),
            value <= limit,
            forall|j: int| 0 <= j < i - start ==> is_digit(#[trigger] digits[j]),
        decreases chars@.len() - i,
    {
        let c = chars[i];
        assert(digits[i - start] == c);
        if c < '0' || c > '9' {
            assert(!is_digit(digits[i - start]));
            return None;
        }
        let step: u32 = c as u32 - '0' as u32;
        value = value * 10 + step as u128;
        i += 1;
        proof {
            let taken = digits.take(i - start);
            assert(taken.drop_last() =~= digits.take(i - start - 1));
            assert(taken.last() == c);
        }
        if value > limit as u128 {
            proof {
                if all_digits(digits) {
                    lemma_digits_value_grows(digits, i - start);
                }
            }
            return None;
        }
    }
    assert(digits.take(i - start) =~= digits);
    Some(value as u64)
}

/// The numeric id that `id` printed; without one, the id that podman machines
/// give their rootless user.
pub open spec fn id_of(output: Option<Seq<u8>>) -> int {
    match output {
        Some(bytes) => match unsigned_value(
            trimmed(lossy_text(bytes), CharSet::WhiteSpace),
            u32::MAX as int,
        ) {
            Some(id) => id,
            None => 1000,
        },
        None => 1000,
    }
}

/// Reads what `id` printed on success.
pub fn parse_id(output: Option<&[u8]>) -> (r: u32)
    ensures
        r == id_of(
            (match output {
                Some(bytes) => Some(bytes@),
                None => None,
            }),
        ),
{
    match output {
        Some(bytes) => {
            let text = decode_lossy(bytes);
            let text = trim(text.as_str());
            match parse_unsigned(text.as_str(), u32::MAX as u64) {
                Some(id) => id as u32,
                None => 1000,
            }
        },
        None => 1000,
    }
}

/// Whether an operating system error means that the user may not make
/// symbolic links.
pub fn privilege_denied(os_error: Option<i32>) -> (r: bool)
    ensures
        r <==> (os_error == Some(1314i32) || os_error == Some(50i32) || os_error == Some(1i32)),
{
    match os_error {
        Some(code) => code == 1314 || code == 50 || code == 1,
        None => false,
    }
}

} // verus!
