//! Session-token claims and their JSON rendering.
//!
//! Signing and verification live with the surrounding service; the
//! claims record and the exact JSON text that gets signed are specified
//! here.

use vstd::prelude::*;
use vstd::string::*;
use crate::activity::push_char;
use crate::json::{esc_str, push_escaped};
use crate::text::{dec_rep, push_dec};

verus! {

/// The claims carried by a session token.
pub struct JwtClaims {
    pub sub: String,
    pub athlete_id: String,
    pub username: Option<String>,
    pub iat: i64,
    pub exp: i64,
    pub iss: String,
    pub aud: String,
}

/// Mathematical model of [`JwtClaims`].
pub struct JwtClaimsModel {
    pub sub: Seq<char>,
    pub athlete_id: Seq<char>,
    pub username: Option<Seq<char>>,
    pub iat: i64,
    pub exp: i64,
    pub iss: Seq<char>,
    pub aud: Seq<char>,
}

impl View for JwtClaims {
    type V = JwtClaimsModel;

    open spec fn view(&self) -> JwtClaimsModel {
        JwtClaimsModel {
            sub: self.sub@,
            athlete_id: self.athlete_id@,
            username: match self.username {
                Option::Some(u) => Option::Some(u@),
                Option::None => Option::None,
            },
            iat: self.iat,
            exp: self.exp,
            iss: self.iss@,
            aud: self.aud@,
        }
    }
}

/// The decimal rendering of a signed integer.
pub open spec fn signed_dec_rep(n: int) -> Seq<char> {
    if n < 0 {
        seq!['-'] + dec_rep(-n)
    } else {
        dec_rep(n)
    }
}

/// Append the decimal rendering of a signed integer.
pub fn push_signed_dec(s: &mut String, n: i64)
    ensures
        final(s)@ == old(s)@ + signed_dec_rep(n as int),
{
    if n < 0 {
        let ghost s0 = s@;
        push_char(s, '-');
        let m: u64 = ((-(n + 1)) as u64) + 1;
        push_dec(s, m);
        proof {
            assert(s0.push('-') + dec_rep(m as int) =~= s0 + signed_dec_rep(n as int));
        }
    } else {
        push_dec(s, n as u64);
    }
}

/// The optional username as a JSON value: a string literal or `null`.
pub open spec fn username_json(u: Option<Seq<char>>) -> Seq<char> {
    match u {
        Option::Some(name) => seq!['"'] + esc_str(name) + seq!['"'],
        Option::None => "null"@,
    }
}

/// The claims as one JSON object, fields in declaration order.
pub open spec fn spec_claims_json(c: JwtClaimsModel) -> Seq<char> {
    "{\"sub\":\""@ + esc_str(c.sub)
        + "\",\"athlete_id\":\""@ + esc_str(c.athlete_id)
        + "\",\"username\":"@ + username_json(c.username)
        + ",\"iat\":"@ + signed_dec_rep(c.iat as int)
        + ",\"exp\":"@ + signed_dec_rep(c.exp as int)
        + ",\"iss\":\""@ + esc_str(c.iss)
        + "\",\"aud\":\""@ + esc_str(c.aud)
        + "\"}"@
}

impl JwtClaims {
    /// Render the claims as the JSON object that gets signed.
    pub fn to_json(&self) -> (r: String)
        ensures
            r@ == spec_claims_json(self@),
    {
        let mut out = String::from_str("{\"sub\":\"");
        push_escaped(&mut out, self.sub.as_str());
        out.append("\",\"athlete_id\":\"");
        push_escaped(&mut out, self.athlete_id.as_str());
        out.append("\",\"username\":");
        match &self.username {
            Some(name) => {
                push_char(&mut out, '"');
                push_escaped(&mut out, name.as_str());
                push_char(&mut out, '"');
            }
            None => {
                out.append("null");
            }
        }
        out.append(",\"iat\":");
        push_signed_dec(&mut out, self.iat);
        out.append(",\"exp\":");
        push_signed_dec(&mut out, self.exp);
        out.append(",\"iss\":\"");
        push_escaped(&mut out, self.iss.as_str());
        out.append("\",\"aud\":\"");
        push_escaped(&mut out, self.aud.as_str());
        out.append("\"}");
        proof {
            assert(out@ =~= spec_claims_json(self@));
        }
        out
    }
}

} // verus!
