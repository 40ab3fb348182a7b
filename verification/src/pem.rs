//! Reading the DER contents of the PEM blocks a device keeps its
//! certificate and private key in.

use vstd::prelude::*;
use vstd::utf8::encode_utf8;

verus! {

/// What the first recognised PEM section of a text holds.
#[derive(Clone, Debug, PartialEq, Eq)]
pub enum PemSection {
    /// The text is not well-formed PEM.
    Malformed,
    /// The text holds no recognised section.
    Empty,
    /// A DER-encoded X.509 certificate (`CERTIFICATE`).
    Certificate(Vec<u8>),
    /// A DER-encoded PKCS #8 private key (`PRIVATE KEY`).
    Pkcs8Key(Vec<u8>),
    /// A section of another recognised kind.
    Other,
}

/// A PEM section, its contents as byte sequences.
pub enum PemSectionView {
    Malformed,
    Empty,
    Certificate(Seq<u8>),
    Pkcs8Key(Seq<u8>),
    Other,
}

impl View for PemSection {
    type V = PemSectionView;

    open spec fn view(&self) -> PemSectionView {
        match self {
            PemSection::Malformed => PemSectionView::Malformed,
            PemSection::Empty => PemSectionView::Empty,
            PemSection::Certificate(der) => PemSectionView::Certificate(der@),
            PemSection::Pkcs8Key(der) => PemSectionView::Pkcs8Key(der@),
            PemSection::Other => PemSectionView::Other,
        }
    }
}

/// What `rustls_pemfile::read_one_from_slice` finds first in a text.
pub uninterp spec fn pem_first_section(text: Seq<u8>) -> PemSectionView;

/// `rustls_pemfile::read_one_from_slice`: the first recognised section of
/// `text`, told apart by kind. The result depends on the text alone.
#[verifier::external_body]
fn read_first_pem_section(text: &[u8]) -> (section: PemSection)
    ensures
        section@ == pem_first_section(text@),
{
    match rustls_pemfile::read_one_from_slice(text) {
        Err(_) => PemSection::Malformed,
        Ok(None) => PemSection::Empty,
        Ok(Some((rustls_pemfile::Item::X509Certificate(der), _))) => PemSection::Certificate(der.to_vec()),
        Ok(Some((rustls_pemfile::Item::Pkcs8Key(key), _))) => PemSection::Pkcs8Key(
            key.secret_pkcs8_der().to_vec(),
        ),
        Ok(Some(_)) => PemSection::Other,
    }
}

/// Why a PEM text does not give what was asked of it.
#[derive(Clone, Copy, Debug, PartialEq, Eq, Structural)]
pub enum PemError {
    Unreadable,
    MissingBlock,
    UnexpectedItem,
}

/// The text `message` gives for each case.
pub open spec fn pem_error_text(e: PemError) -> Seq<char> {
    match e {
        PemError::Unreadable => "read pem"@,
        PemError::MissingBlock => "missing pem block"@,
        PemError::UnexpectedItem => "unexpected pem item"@,
    }
}
impl PemError {
    pub fn message(&self) -> (text: String)
        ensures
            text@ == pem_error_text(*self),
    {
        match self {
            PemError::Unreadable => String::from_str("read pem"),
            PemError::MissingBlock => String::from_str("missing pem block"),
            PemError::UnexpectedItem => String::from_str("unexpected pem item"),
        }
    }
}

/// What a first section gives where a certificate is wanted.
pub open spec fn certificate_of(section: PemSectionView) -> Result<Seq<u8>, PemError> {
    match section {
        PemSectionView::Malformed => Err(PemError::Unreadable),
        PemSectionView::Empty => Err(PemError::MissingBlock),
        PemSectionView::Certificate(der) => Ok(der),
        _ => Err(PemError::UnexpectedItem),
    }
}

/// What a first section gives where a private key is wanted.
pub open spec fn private_key_of(section: PemSectionView) -> Result<Seq<u8>, PemError> {
    match section {
        PemSectionView::Malformed => Err(PemError::Unreadable),
        PemSectionView::Empty => Err(PemError::MissingBlock),
        PemSectionView::Pkcs8Key(der) => Ok(der),
        _ => Err(PemError::UnexpectedItem),
    }
}

pub open spec fn der_result(r: Result<Vec<u8>, PemError>) -> Result<Seq<u8>, PemError> {
    match r {
        Ok(v) => Ok(v@),
        Err(e) => Err(e),
    }
}

/// The certificate a first section holds.
pub fn certificate_from_section(section: PemSection) -> (r: Result<Vec<u8>, PemError>)
    ensures
        der_result(r) == certificate_of(section@),
{
    match section {
        PemSection::Malformed => Err(PemError::Unreadable),
        PemSection::Empty => Err(PemError::MissingBlock),
        PemSection::Certificate(der) => Ok(der),
        _ => Err(PemError::UnexpectedItem),
    }
}

/// The private key a first section holds.
pub fn private_key_from_section(section: PemSection) -> (r: Result<Vec<u8>, PemError>)
    ensures
        der_result(r) == private_key_of(section@),
{
    match section {
        PemSection::Malformed => Err(PemError::Unreadable),
        PemSection::Empty => Err(PemError::MissingBlock),
        PemSection::Pkcs8Key(der) => Ok(der),
        _ => Err(PemError::UnexpectedItem),
    }
}

/// The DER certificate of a PEM text: its first section must be a
/// certificate.
pub fn pem_to_certificate_der(pem: &str) -> (r: Result<Vec<u8>, PemError>)
    ensures
        der_result(r) == certificate_of(pem_first_section(encode_utf8(pem@))),
{
    certificate_from_section(read_first_pem_section(pem.as_bytes()))
}

/// The DER private key of a PEM text: its first section must be a PKCS #8
/// key.
pub fn pem_to_private_key_der(pem: &str) -> (r: Result<Vec<u8>, PemError>)
    ensures
        der_result(r) == private_key_of(pem_first_section(encode_utf8(pem@))),
{
    private_key_from_section(read_first_pem_section(pem.as_bytes()))
}

} // verus!
