//! The QR encoder, and what this library relies on of it.

use vstd::prelude::*;
use qrcode::types::QrError;
use qrcode::QrCode;
use crate::capacity::EcLevel;

verus! {

#[verifier::external_type_specification]
#[verifier::external_body]
pub struct ExQrError(QrError);

#[verifier::external_type_specification]
#[verifier::external_body]
pub struct ExQrCode(QrCode);

/// The outcome of encoding `data` in byte mode into a normal symbol of
/// `version` at the error-correction level with column `ec`.
pub uninterp spec fn symbol_for(data: Seq<u8>, version: int, ec: int) -> Result<QrCode, QrError>;

/// Relies on `qrcode::QrCode::with_version`: for a normal version it returns
/// a symbol or an error, as a function of the bytes, version and level alone.
#[verifier::external_body]
pub(crate) fn encode_symbol(data: &[u8], version: i16, ec: EcLevel) -> (r: Result<QrCode, QrError>)
    requires
        1 <= version <= 40,
    ensures
        r == symbol_for(data@, version as int, ec.index()),
{
    let level = match ec {
        EcLevel::L => qrcode::EcLevel::L,
        EcLevel::M => qrcode::EcLevel::M,
        EcLevel::Q => qrcode::EcLevel::Q,
        EcLevel::H => qrcode::EcLevel::H,
    };
    QrCode::with_version(data, qrcode::Version::Normal(version), level)
}

} // verus!
