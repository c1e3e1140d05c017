//! The QR code that a phone scans to pair: its payload, the instance name it
//! advertises under, and its rendering for a terminal.
use vstd::prelude::*;

use crate::text::{
    trim,
    trimmed,
    is_alnum,
    lower,
    lower_char,
    ascii_lower,
    lowercase,
    chars_of,
    string_of,
    concat,
    slice_range,
    trim_end_str,
    trim_end_str_exec,
    trim_end_char,
};

verus! {

/// The payload of a pairing QR code and the two values it carries.
#[derive(Debug, Clone, PartialEq, Eq)]
pub struct PairingQr {
    pub instance: String,
    pub secret: String,
    pub payload: String,
}

/// `WIFI:T:ADB;S:{instance};P:{secret};;`, the format Android's scanner expects.
pub open spec fn qr_payload(instance: Seq<char>, secret: Seq<char>) -> Seq<char> {
    "WIFI:T:ADB;S:"@ + instance + ";P:"@ + secret + ";;"@
}

pub open spec fn all_alnum(s: Seq<char>) -> bool {
    forall|i: int| 0 <= i < s.len() ==> is_alnum(#[trigger] s[i])
}

/// `length` characters drawn at random from `A-Z`, `a-z` and `0-9`.
///
/// Calls `rand`'s `Alphanumeric::sample_string` with the thread-local
/// generator. Which characters come back is left unsaid: only their number and
/// alphabet are stated.
#[verifier::external_body]
fn safe_random(length: usize) -> (r: String)
    ensures
        r@.len() == length,
        all_alnum(r@),
{
    rand::distributions::DistString::sample_string(
        &rand::distributions::Alphanumeric,
        &mut rand::thread_rng(),
        length,
    )
}

/// The Unicode half-block rendering, with a quiet zone, of the QR code that
/// `qrcode` builds for these bytes; `None` when it cannot build one.
pub uninterp spec fn qr_dense_text(payload: Seq<char>) -> Option<Seq<char>>;

/// Builds the QR code for `payload` with `qrcode::QrCode::new` and renders it
/// with `Dense1x2` pixels and a quiet zone; on failure, `qrcode`'s own message
/// for the error, whose text is left unsaid.
#[verifier::external_body]
fn render_qr(payload: &str) -> (r: Result<String, String>)
    ensures
        match r {
            Ok(s) => qr_dense_text(payload@) == Some(s@),
            Err(_) => qr_dense_text(payload@) is None,
        },
{
    match qrcode::QrCode::new(payload.as_bytes()) {
        Ok(code) => Ok(code.render::<qrcode::render::unicode::Dense1x2>().quiet_zone(true).build()),
        Err(e) => Err(e.to_string()),
    }
}

impl PairingQr {
    /// A QR code for `instance` with a fresh 16-character secret.
    pub fn with_instance(instance: String) -> (r: PairingQr)
        ensures
            r.instance == instance,
            r.secret@.len() == 16,
            all_alnum(r.secret@),
            r.payload@ == qr_payload(instance@, r.secret@),
    {
        let secret = safe_random(16);
        PairingQr::with_secret(instance, secret)
    }

    /// A QR code for `instance` with the given secret.
    pub fn with_secret(instance: String, secret: String) -> (r: PairingQr)
        ensures
            r.instance == instance,
            r.secret == secret,
            r.payload@ == qr_payload(instance@, secret@),
    {
        let a = concat(&chars_of("WIFI:T:ADB;S:"), &chars_of(instance.as_str()));
        let b = concat(&a, &chars_of(";P:"));
        let c = concat(&b, &chars_of(secret.as_str()));
        let payload = string_of(&concat(&c, &chars_of(";;")));
        PairingQr { instance, secret, payload }
    }

    /// A QR code with a fresh 16-character secret, advertised under the first
    /// machine name that sanitizes to an instance name, or under `airadb-`
    /// followed by six random lowercase letters and digits.
    pub fn generate(machine_names: &[String]) -> (r: PairingQr)
        ensures
            r.secret@.len() == 16,
            all_alnum(r.secret@),
            r.payload@ == qr_payload(r.instance@, r.secret@),
            match first_sanitized(machine_names@.map_values(|s: String| s@)) {
                Some(name) => r.instance@ == name,
                None => r.instance@.len() == 13 && r.instance@.take(7) == "airadb-"@
                    && all_alnum(r.instance@.skip(7)) && lower(r.instance@.skip(7)) == r.instance@.skip(7),
            },
    {
        PairingQr::with_instance(pairing_instance_name(machine_names))
    }

    /// The QR code drawn with Unicode half blocks for a terminal.
    pub fn render_terminal(&self) -> (r: Result<String, String>)
        ensures
            match r {
                Ok(s) => qr_dense_text(self.payload@) == Some(s@),
                Err(e) => qr_dense_text(self.payload@) is None && e@.take(25) == "failed to build QR code: "@,
            },
    {
        match render_qr(self.payload.as_str()) {
            Ok(s) => Ok(s),
            Err(e) => {
                let m = concat(&chars_of("failed to build QR code: "), &chars_of(e.as_str()));
                proof {
                    reveal_strlit("failed to build QR code: ");
                    assert(m@.take(25) =~= "failed to build QR code: "@);
                }
                Err(string_of(&m))
            },
        }
    }
}

// ---------------------------------------------------------------------------
// Instance names
// ---------------------------------------------------------------------------

pub open spec fn is_separator(c: char) -> bool {
    c == '-' || c == '_' || c == '.' || c == ' '
}

/// Letters and digits lowercased; a run of separators after some output
/// becomes one `-`; everything else is dropped. Also says whether the output
/// ends in such a `-`.
pub open spec fn sanitize_fold(s: Seq<char>) -> (Seq<char>, bool)
    decreases s.len(),
{
    if s.len() == 0 {
        (seq![], false)
    } else {
        let (acc, last_sep) = sanitize_fold(s.drop_last());
        let c = s.last();
        if is_alnum(c) {
            (acc.push(lower_char(c)), false)
        } else if is_separator(c) && acc.len() > 0 && !last_sep {
            (acc.push('-'), true)
        } else {
            (acc, last_sep)
        }
    }
}

/// A machine name as a DNS-SD instance label: trimmed, without `.local`,
/// sanitized, without trailing dashes, at most 63 characters; `None` when
/// nothing is left.
pub open spec fn sanitized(value: Seq<char>) -> Option<Seq<char>> {
    let s = trim_end_char(sanitize_fold(trim_end_str(trim(value), ".local"@)).0, '-');
    if s.len() == 0 {
        None
    } else if s.len() <= 63 {
        Some(s)
    } else {
        Some(s.take(63))
    }
}

pub fn sanitize_pairing_instance(value: &str) -> (r: Option<String>)
    ensures
        r is None ==> sanitized(value@) is None,
        r is Some ==> sanitized(value@) == Some(r->0@),
{
    let src = trim_end_str_exec(&trimmed(&chars_of(value)), &chars_of(".local"));
    let mut out: Vec<char> = Vec::new();
    let mut last_sep = false;
    let mut i: usize = 0;
    proof {
        assert(src@.take(0) =~= Seq::<char>::empty());
    }
    while i < src.len()
        invariant
            i <= src@.len(),
            src@ == trim_end_str(trim(value@), ".local"@),
            sanitize_fold(src@.take(i as int)) == (out@, last_sep),
        decreases src.len() - i,
    {
        let c = src[i];
        proof {
            assert(src@.take(i + 1).drop_last() =~= src@.take(i as int));
            assert(src@.take(i + 1).last() == c);
        }
        if ('0' <= c && c <= '9') || ('a' <= c && c <= 'z') || ('A' <= c && c <= 'Z') {
            out.push(ascii_lower(c));
            last_sep = false;
        } else if (c == '-' || c == '_' || c == '.' || c == ' ') && out.len() > 0 && !last_sep {
            out.push('-');
            last_sep = true;
        }
        i += 1;
    }
    proof {
        assert(src@.take(src@.len() as int) =~= src@);
    }
    let trimmed_out = crate::text::trim_end_char_exec(&out, '-');
    if trimmed_out.len() == 0 {
        None
    } else if trimmed_out.len() <= 63 {
        Some(string_of(&trimmed_out))
    } else {
        let head = slice_range(&trimmed_out, 0, 63);
        proof {
            assert(head@ =~= trimmed_out@.take(63));
        }
        Some(string_of(&head))
    }
}

/// The first name that sanitizes to an instance name.
pub open spec fn first_sanitized(names: Seq<Seq<char>>) -> Option<Seq<char>>
    decreases names.len(),
{
    if names.len() == 0 {
        None
    } else {
        match sanitized(names[0]) {
            Some(s) => Some(s),
            None => first_sanitized(names.skip(1)),
        }
    }
}

fn pairing_instance_name(names: &[String]) -> (r: String)
    ensures
        match first_sanitized(names@.map_values(|s: String| s@)) {
            Some(name) => r@ == name,
            None => r@.len() == 13 && r@.take(7) == "airadb-"@ && all_alnum(r@.skip(7)) && lower(
                r@.skip(7),
            ) == r@.skip(7),
        },
{
    let ghost nv = names@.map_values(|s: String| s@);
    let mut i: usize = 0;
    proof {
        assert(nv.skip(0) =~= nv);
    }
    while i < names.len()
        invariant
            i <= names@.len(),
            nv == names@.map_values(|s: String| s@),
            first_sanitized(nv) == first_sanitized(nv.skip(i as int)),
        decreases names.len() - i,
    {
        proof {
            assert(nv.skip(i as int)[0] == names@[i as int]@);
            assert(nv.skip(i as int).skip(1) =~= nv.skip(i + 1));
        }
        match sanitize_pairing_instance(names[i].as_str()) {
            Some(s) => {
                return s;
            },
            None => {},
        }
        i += 1;
    }
    proof {
        assert(nv.skip(names@.len() as int) =~= Seq::<Seq<char>>::empty());
    }
    let suffix = lowercase(&chars_of(safe_random(6).as_str()));
    let name = concat(&chars_of("airadb-"), &suffix);
    proof {
        reveal_strlit("airadb-");
        assert(name@.take(7) =~= "airadb-"@);
        assert(name@.skip(7) =~= suffix@);
        assert forall|k: int| 0 <= k < suffix@.len() implies is_alnum(#[trigger] suffix@[k]) && lower_char(suffix@[k]) == suffix@[k] by {
        }
        assert(lower(suffix@) =~= suffix@);
    }
    string_of(&name)
}

} // verus!
