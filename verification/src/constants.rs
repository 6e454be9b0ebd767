//! Wire type tags, ISCCC algorithm identifiers, and the closed set of
//! supported HMAC algorithms with its name table.

use vstd::prelude::*;

use crate::error::RndcError;
use crate::utils::str_eq;

verus! {

// Message type tags of the TLV format.
pub const MSGTYPE_STRING: u8 = 0;

pub const MSGTYPE_BINARYDATA: u8 = 1;

pub const MSGTYPE_TABLE: u8 = 2;

pub const MSGTYPE_LIST: u8 = 3;

// ISCCC algorithm identifiers.
pub const ISCCC_ALG_HMAC_MD5: u8 = 157;

pub const ISCCC_ALG_HMAC_SHA1: u8 = 161;

pub const ISCCC_ALG_HMAC_SHA224: u8 = 162;

pub const ISCCC_ALG_HMAC_SHA256: u8 = 163;

pub const ISCCC_ALG_HMAC_SHA384: u8 = 164;

pub const ISCCC_ALG_HMAC_SHA512: u8 = 165;

/// Supported RNDC HMAC algorithms.
#[derive(Debug, Clone, PartialEq, Eq, Structural)]
pub enum RndcAlg {
    MD5,
    SHA1,
    SHA224,
    SHA256,
    SHA384,
    SHA512,
}

/// The algorithm a (case-exact) name denotes: the bare hash name, the
/// `h`-prefixed short form, or the `hmac-` long form.
pub open spec fn alg_of_name(s: Seq<char>) -> Option<RndcAlg> {
    if s == "md5"@ || s == "hmd5"@ || s == "hmac-md5"@ {
        Some(RndcAlg::MD5)
    } else if s == "sha1"@ || s == "hsha1"@ || s == "hmac-sha1"@ {
        Some(RndcAlg::SHA1)
    } else if s == "sha224"@ || s == "hsha224"@ || s == "hmac-sha224"@ {
        Some(RndcAlg::SHA224)
    } else if s == "sha256"@ || s == "hsha256"@ || s == "hmac-sha256"@ {
        Some(RndcAlg::SHA256)
    } else if s == "sha384"@ || s == "hsha384"@ || s == "hmac-sha384"@ {
        Some(RndcAlg::SHA384)
    } else if s == "sha512"@ || s == "hsha512"@ || s == "hmac-sha512"@ {
        Some(RndcAlg::SHA512)
    } else {
        None
    }
}

/// The ISCCC identifier of an algorithm.
pub open spec fn spec_alg_code(alg: RndcAlg) -> u8 {
    match alg {
        RndcAlg::MD5 => 157,
        RndcAlg::SHA1 => 161,
        RndcAlg::SHA224 => 162,
        RndcAlg::SHA256 => 163,
        RndcAlg::SHA384 => 164,
        RndcAlg::SHA512 => 165,
    }
}

/// The byte length of the algorithm's HMAC digest.
pub open spec fn spec_digest_len(alg: RndcAlg) -> nat {
    match alg {
        RndcAlg::MD5 => 16,
        RndcAlg::SHA1 => 20,
        RndcAlg::SHA224 => 28,
        RndcAlg::SHA256 => 32,
        RndcAlg::SHA384 => 48,
        RndcAlg::SHA512 => 64,
    }
}

/// The key under which the signature travels in the `_auth` table.
pub open spec fn spec_auth_field(alg: RndcAlg) -> Seq<char> {
    if alg == RndcAlg::MD5 {
        "hmd5"@
    } else {
        "hsha"@
    }
}

impl RndcAlg {
    /// Parses an algorithm name; unknown names are rejected with
    /// `InvalidAlgorithm` carrying the name itself.
    pub fn from_string(alg: &str) -> (r: Result<Self, RndcError>)
        ensures
            r matches Ok(a) ==> alg_of_name(alg@) == Some(a),
            r is Ok <==> alg_of_name(alg@) is Some,
            r matches Err(e) ==> e matches RndcError::InvalidAlgorithm(m) && m@ == alg@,
    {
        if str_eq(alg, "md5") || str_eq(alg, "hmd5") || str_eq(alg, "hmac-md5") {
            Ok(RndcAlg::MD5)
        } else if str_eq(alg, "sha1") || str_eq(alg, "hsha1") || str_eq(alg, "hmac-sha1") {
            Ok(RndcAlg::SHA1)
        } else if str_eq(alg, "sha224") || str_eq(alg, "hsha224") || str_eq(alg, "hmac-sha224") {
            Ok(RndcAlg::SHA224)
        } else if str_eq(alg, "sha256") || str_eq(alg, "hsha256") || str_eq(alg, "hmac-sha256") {
            Ok(RndcAlg::SHA256)
        } else if str_eq(alg, "sha384") || str_eq(alg, "hsha384") || str_eq(alg, "hmac-sha384") {
            Ok(RndcAlg::SHA384)
        } else if str_eq(alg, "sha512") || str_eq(alg, "hsha512") || str_eq(alg, "hmac-sha512") {
            Ok(RndcAlg::SHA512)
        } else {
            Err(RndcError::InvalidAlgorithm(alg.to_owned()))
        }
    }

    /// The ISCCC identifier of this algorithm.
    pub fn code(&self) -> (r: u8)
        ensures
            r == spec_alg_code(*self),
    {
        match self {
            RndcAlg::MD5 => 157,
            RndcAlg::SHA1 => 161,
            RndcAlg::SHA224 => 162,
            RndcAlg::SHA256 => 163,
            RndcAlg::SHA384 => 164,
            RndcAlg::SHA512 => 165,
        }
    }
}

} // verus!
