//! Protocol versions.
use vstd::prelude::*;
use vstd::string::StringSliceAdditionalSpecFns;
use crate::common::RhttpError;
use crate::text::{eq_ignore_case, eq_ignore_case_bytes, str_bytes};

verus! {

#[derive(PartialEq, Eq, Structural, Clone, Copy, Debug, Hash)]
pub enum ProtocolVersion {
    Http10,
    Http11,
}

pub open spec fn version_name(v: ProtocolVersion) -> Seq<u8> {
    match v {
        ProtocolVersion::Http10 => seq![0x48u8, 0x54u8, 0x54u8, 0x50u8, 0x2fu8, 0x31u8, 0x2eu8, 0x30u8],
        ProtocolVersion::Http11 => seq![0x48u8, 0x54u8, 0x54u8, 0x50u8, 0x2fu8, 0x31u8, 0x2eu8, 0x31u8],
    }
}

/// The version named by `b`, ignoring ASCII case.
pub open spec fn version_of(b: Seq<u8>) -> Result<ProtocolVersion, RhttpError> {
    if eq_ignore_case(b, version_name(ProtocolVersion::Http10)) {
        Ok(ProtocolVersion::Http10)
    } else if eq_ignore_case(b, version_name(ProtocolVersion::Http11)) {
        Ok(ProtocolVersion::Http11)
    } else {
        Err(RhttpError::ParsingHttpProtocolErr)
    }
}

impl Default for ProtocolVersion {
    fn default() -> (r: ProtocolVersion)
        ensures
            r == ProtocolVersion::Http11,
    {
        ProtocolVersion::Http11
    }
}

impl ProtocolVersion {
    pub fn parse_from_str(protocol: &str) -> (r: Result<ProtocolVersion, RhttpError>)
        ensures
            r == version_of(protocol.spec_bytes()),
    {
        Self::from_bytes(&str_bytes(protocol))
    }

    pub fn from_bytes(b: &Vec<u8>) -> (r: Result<ProtocolVersion, RhttpError>)
        ensures
            r == version_of(b@),
    {
        if eq_ignore_case_bytes(b, &ProtocolVersion::Http10.name()) {
            Ok(ProtocolVersion::Http10)
        } else if eq_ignore_case_bytes(b, &ProtocolVersion::Http11.name()) {
            Ok(ProtocolVersion::Http11)
        } else {
            Err(RhttpError::ParsingHttpProtocolErr)
        }
    }

    pub fn name(&self) -> (r: Vec<u8>)
        ensures
            r@ == version_name(*self),
    {
        let r = match self {
            ProtocolVersion::Http10 => vec![0x48u8, 0x54u8, 0x54u8, 0x50u8, 0x2fu8, 0x31u8, 0x2eu8, 0x30u8],
            ProtocolVersion::Http11 => vec![0x48u8, 0x54u8, 0x54u8, 0x50u8, 0x2fu8, 0x31u8, 0x2eu8, 0x31u8],
        };
        proof {
            assert(r@ =~= version_name(*self));
        }
        r
    }
}

} // verus!
