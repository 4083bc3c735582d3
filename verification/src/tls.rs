//! Which node a TLS certificate belongs to.
//!
//! A certificate belongs to one node: it carries exactly one DNS name, the
//! node's name. That name is how a node is dialed, and who a peer is, as far
//! as the cluster is concerned, is the name in the certificate it presented.
use crate::names::NodeName;
use rustls_pki_types::pem::PemObject;
use rustls_pki_types::CertificateDer;
use vstd::prelude::*;
use webpki::EndEntityCert;

verus! {

/// Why a certificate or a TLS identity was refused.
#[derive(Debug, Clone, PartialEq, Eq)]
pub enum TlsError {
    /// The PEM input could not be read; the reason is given.
    Pem(String),
    /// The input held no certificates.
    NoCertificates,
    /// A certificate must carry exactly one DNS name, the node name; it
    /// carried this many.
    CertificateNames(usize),
    /// The certificate could not be read; the reason is given.
    Certificate(String),
}

/// The valid DNS names among the subject alternative names of the X.509
/// certificate whose DER encoding is `der`, in order, or `None` if `der` is
/// not a certificate that `webpki` can read.
pub uninterp spec fn certificate_dns_names(der: Seq<u8>) -> Option<Seq<Seq<char>>>;

/// Reads the certificate `der` with `webpki::EndEntityCert::try_from` and
/// lists its `valid_dns_names`, or gives the reason it couldn't be read. The
/// names are stated through [`certificate_dns_names`]; the wording of the
/// reason is not stated.
#[verifier::external_body]
fn valid_dns_names(der: &[u8]) -> (r: Result<Vec<String>, String>)
    ensures
        r is Ok <==> certificate_dns_names(der@) is Some,
        r matches Ok(names) ==> names@.map_values(|n: String| n@) == certificate_dns_names(
            der@,
        ).unwrap(),
{
    let der = CertificateDer::from(der);
    match EndEntityCert::try_from(&der) {
        Ok(cert) => Ok(cert.valid_dns_names().map(String::from).collect()),
        Err(err) => Err(err.to_string()),
    }
}

/// The DER encodings of the certificates in the PEM text `pem`, in order, or
/// `None` if a section of it is malformed.
pub uninterp spec fn pem_certificates(pem: Seq<u8>) -> Option<Seq<Seq<u8>>>;

/// Reads the certificates in the PEM text `pem` with
/// `CertificateDer::pem_slice_iter`, stopping at the first malformed section,
/// whose reason it gives. The certificates are stated through
/// [`pem_certificates`]; the wording of the reason is not stated.
#[verifier::external_body]
fn certificates_in_pem(pem: &[u8]) -> (r: Result<Vec<Vec<u8>>, String>)
    ensures
        r is Ok <==> pem_certificates(pem@) is Some,
        r matches Ok(ders) ==> ders@.map_values(|d: Vec<u8>| d@) == pem_certificates(pem@).unwrap(),
{
    CertificateDer::pem_slice_iter(pem)
        .map(|cert| cert.map(|cert| cert.to_vec()))
        .collect::<Result<Vec<Vec<u8>>, _>>()
        .map_err(|err| err.to_string())
}

/// The node that a certificate with the DNS names `names` belongs to: its one
/// name. A certificate with no name, or with more than one, is refused,
/// reporting how many it has.
pub fn node_from_names(names: Vec<String>) -> (r: Result<NodeName, TlsError>)
    ensures
        names@.len() == 1 ==> (r matches Ok(node) && node@ == names@[0]@),
        names@.len() != 1 ==> r == Err::<NodeName, TlsError>(TlsError::CertificateNames(names@.len() as usize)),
{
    let count = names.len();
    if count == 1 {
        let mut names = names;
        let name = names.pop().unwrap();
        Ok(NodeName::from_string(name))
    } else {
        Err(TlsError::CertificateNames(count))
    }
}

/// The node the certificate `der` belongs to: its one DNS name.
pub fn node_of(der: &[u8]) -> (r: Result<NodeName, TlsError>)
    ensures
        match certificate_dns_names(der@) {
            None => r matches Err(TlsError::Certificate(_)),
            Some(names) => if names.len() == 1 {
                (r matches Ok(node) && node@ == names[0])
            } else {
                r == Err::<NodeName, TlsError>(TlsError::CertificateNames(names.len() as usize))
            },
        },
{
    match valid_dns_names(der) {
        Err(reason) => Err(TlsError::Certificate(reason)),
        Ok(names) => node_from_names(names),
    }
}

/// The node that a node's own certificate chain, in the PEM text
/// `cert_pem`, names: that of its first certificate, which must carry exactly
/// one DNS name. A chain that can't be read, or holds no certificate, is
/// refused.
pub fn node_of_pem(cert_pem: &[u8]) -> (r: Result<NodeName, TlsError>)
    ensures
        match pem_certificates(cert_pem@) {
            None => r matches Err(TlsError::Pem(_)),
            Some(chain) => if chain.len() == 0 {
                r == Err::<NodeName, TlsError>(TlsError::NoCertificates)
            } else {
                match certificate_dns_names(chain[0]) {
                    None => r matches Err(TlsError::Certificate(_)),
                    Some(names) => if names.len() == 1 {
                        (r matches Ok(node) && node@ == names[0])
                    } else {
                        r == Err::<NodeName, TlsError>(TlsError::CertificateNames(names.len() as usize))
                    },
                }
            },
        },
{
    match certificates_in_pem(cert_pem) {
        Err(reason) => Err(TlsError::Pem(reason)),
        Ok(chain) => {
            if chain.len() == 0 {
                Err(TlsError::NoCertificates)
            } else {
                assert(chain@.map_values(|d: Vec<u8>| d@)[0] == chain@[0]@);
                node_of(chain[0].as_slice())
            }
        },
    }
}

} // verus!
