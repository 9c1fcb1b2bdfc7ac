//! Certificate chains: building and validating a path to a trust anchor.

use vstd::prelude::*;
use vstd::std_specs::convert::FromSpecImpl;

use crate::codec::bytes_eq;
use crate::crypto::hash::hashable;
use crate::identity::cert::dn::{rdns, same_name, DistinguishedName, NameKey};
use crate::identity::cert::ext::scope::{name_constraints, or_none, NameConstraints};
use crate::identity::cert::ext::{
    after_extension, extensions_of, lemma_extension_consumes, next_extension, ExtensionIter, ExtensionsView,
    OID_NAME_CONSTRAINTS,
};
use crate::identity::cert::{self, signed_by, CertView, SpkiView, SubjectPublicKeyInfo};
use crate::identity::time::UnixTime;

use self::extensions::{
    check_name_constraints, constraints_verdict, from_cert, profile, profile_views, ConstraintsView, Profile,
    ProfileView,
};
use self::prepared::{prepared_verdict, PreparedNameConstraints, PreparedView};
use self::search::{search_verdict, Search, SearchView};

pub mod extensions;
pub mod laws;
pub mod outcomes;
pub mod path;
pub mod prepared;
pub mod reading;
pub mod search;

verus! {

/// How many certificates a chain may have.
pub const MAX_LEN: usize = 10;

/// Why a chain is not acceptable.
#[derive(Debug, Clone, Copy, PartialEq, Eq, Structural)]
pub enum Error {
    Empty,
    ChainTooLong,
    SignatureFailed,
    NotYetValid,
    Expired,
    IssuerNotCa,
    NoKeyCertSign,
    PathLenExceeded,
    NotEndEntity,
    IssuerSubjectMismatch,
    NoServerAuth,
    LeafKeyUsageInvalid,
    HostnameMismatch,
    NameConstraintViolation,
    NoTrustAnchor,
    UnhandledCriticalExtension,
    DuplicateExtension,
    Verify(cert::VerifyError),
    Parse,
}

impl From<cert::VerifyError> for Error {
    fn from(e: cert::VerifyError) -> (r: Self) {
        Error::Verify(e)
    }
}

impl FromSpecImpl<cert::VerifyError> for Error {
    open spec fn obeys_from_spec() -> bool {
        true
    }

    open spec fn from_spec(e: cert::VerifyError) -> Self {
        Error::Verify(e)
    }
}

impl From<cert::Error> for Error {
    fn from(error: cert::Error) -> (r: Self) {
        match error {
            cert::Error::DuplicateExtension => Error::DuplicateExtension,
            _ => Error::Parse,
        }
    }
}

impl FromSpecImpl<cert::Error> for Error {
    open spec fn obeys_from_spec() -> bool {
        true
    }

    open spec fn from_spec(error: cert::Error) -> Self {
        if error == cert::Error::DuplicateExtension {
            Error::DuplicateExtension
        } else {
            Error::Parse
        }
    }
}

/// What name constraints in an extension value say.
pub open spec fn constraints_in(value: Seq<u8>) -> Result<ConstraintsView, Error> {
    match name_constraints(value) {
        Ok((permitted, excluded)) => Ok(
            ConstraintsView { permitted: or_none(permitted), excluded: or_none(excluded) },
        ),
        Err(e) => Err(from_cert(e)),
    }
}

fn parse_constraints<'a>(value: &'a [u8]) -> (r: Result<NameConstraints<'a>, Error>)
    ensures
        match constraints_in(value@) {
            Ok(c) => r is Ok && c == (ConstraintsView {
                permitted: r->Ok_0.permitted@,
                excluded: r->Ok_0.excluded@,
            }),
            Err(e) => r is Err && r->Err_0 == e,
        },
{
    match NameConstraints::parse(value) {
        Ok(c) => Ok(c),
        Err(e) => Err(Error::from(e)),
    }
}

/// What constrains the names below a trust anchor.
pub enum AnchorConstraintsView {
    Unconstrained,
    NameConstraints(Seq<u8>),
    Prepared(PreparedView),
    CertificateExtensions(Seq<u8>),
}

/// Constraints of a trust anchor as they are checked: as they were read, or sorted by
/// kind beforehand.
pub enum AnchorMatchView {
    Parsed(ConstraintsView),
    Prepared(PreparedView),
}

/// Whether an anchor's constraints allow every name of every certificate below.
pub open spec fn match_verdict(c: AnchorMatchView, below: Seq<ProfileView>) -> Result<(), Error> {
    match c {
        AnchorMatchView::Parsed(n) => constraints_verdict(n, below),
        AnchorMatchView::Prepared(p) => prepared_verdict(p, below),
    }
}

/// A trust anchor: a name, a key, and constraints.
pub struct AnchorView {
    pub subject: Seq<u8>,
    pub spki: SpkiView,
    pub constraints: AnchorConstraintsView,
}

/// The name constraints among the extensions that are left, or those found
/// before.
pub open spec fn constraints_among(v: ExtensionsView, found: Option<ConstraintsView>) -> Result<
    Option<ConstraintsView>,
    Error,
>
    decreases v.rest.len(),
{
    match next_extension(v) {
        None => Ok(found),
        Some(Err(e)) => Err(from_cert(e)),
        Some(Ok(x)) => {
            proof {
                lemma_extension_consumes(v.rest);
            }
            if x.oid == OID_NAME_CONSTRAINTS@ {
                match constraints_in(x.value) {
                    Err(e) => Err(e),
                    Ok(c) => constraints_among(after_extension(v), Some(c)),
                }
            } else {
                constraints_among(after_extension(v), found)
            }
        },
    }
}

/// The constraints of a trust anchor. Extensions that cannot be read are an error
/// and never count as no constraints.
pub open spec fn anchor_constraints(c: AnchorConstraintsView) -> Result<Option<AnchorMatchView>, Error> {
    match c {
        AnchorConstraintsView::Unconstrained => Ok(None),
        AnchorConstraintsView::NameConstraints(der) => match constraints_in(der) {
            Ok(n) => Ok(Some(AnchorMatchView::Parsed(n))),
            Err(e) => Err(e),
        },
        AnchorConstraintsView::Prepared(p) => Ok(Some(AnchorMatchView::Prepared(p))),
        AnchorConstraintsView::CertificateExtensions(exts) => match constraints_among(
            extensions_of(exts),
            None,
        ) {
            Ok(Some(n)) => Ok(Some(AnchorMatchView::Parsed(n))),
            Ok(None) => Ok(None),
            Err(e) => Err(e),
        },
    }
}

/// What constrains the names below a trust anchor.
#[derive(Debug, Clone, Copy)]
enum AnchorConstraints<'a> {
    /// The caller supplied a name and a key without constraints.
    Unconstrained,
    /// Constraints that the caller supplied.
    NameConstraints(&'a [u8]),
    /// Constraints that the caller supplied and had read before.
    Prepared(&'a PreparedNameConstraints),
    /// The extensions of the certificate that the anchor was made from, so that
    /// constraints that cannot be read never count as none.
    CertificateExtensions(&'a [u8]),
}

impl<'a> AnchorConstraints<'a> {
    spec fn view(self) -> AnchorConstraintsView {
        match self {
            AnchorConstraints::Unconstrained => AnchorConstraintsView::Unconstrained,
            AnchorConstraints::NameConstraints(d) => AnchorConstraintsView::NameConstraints(d@),
            AnchorConstraints::Prepared(p) => AnchorConstraintsView::Prepared(p@),
            AnchorConstraints::CertificateExtensions(d) => AnchorConstraintsView::CertificateExtensions(d@),
        }
    }
}

/// A name and a key that are trusted without a certificate.
#[derive(Debug, Clone)]
pub struct TrustAnchor<'a> {
    pub subject_der: &'a [u8],
    pub spki: SubjectPublicKeyInfo<'a>,
    constraints: AnchorConstraints<'a>,
}

impl<'a> View for TrustAnchor<'a> {
    type V = AnchorView;

    closed spec fn view(&self) -> AnchorView {
        AnchorView {
            subject: self.subject_der@,
            spki: self.spki@,
            constraints: self.constraints.view(),
        }
    }
}

/// What a trust anchor makes of a certificate: `None` where it did not issue it,
/// and otherwise its constraints.
pub open spec fn anchor_verdict(a: AnchorView, c: PathCertView) -> Result<
    Option<Option<AnchorMatchView>>,
    Error,
> {
    if a.subject != c.issuer && rdns(a.subject, false) is Err {
        Err(from_cert(rdns(a.subject, false)->Err_0))
    } else if a.subject != c.issuer && !same_name(a.subject, c.issuer) {
        Ok(None)
    } else if signed_by(c.tbs_der, c.algorithm, c.signature, a.spki) is Err {
        Ok(None)
    } else {
        match anchor_constraints(a.constraints) {
            Ok(n) => Ok(Some(n)),
            Err(e) => Err(e),
        }
    }
}

/// What the first anchor from `k` on that issued a certificate, or that cannot be
/// read, makes of it.
pub open spec fn anchors_verdict(anchors: Seq<AnchorView>, c: PathCertView, k: int) -> Result<
    Option<Option<AnchorMatchView>>,
    Error,
>
    decreases anchors.len() - k,
{
    if k >= anchors.len() {
        Ok(None)
    } else {
        match anchor_verdict(anchors[k], c) {
            Ok(None) => anchors_verdict(anchors, c, k + 1),
            v => v,
        }
    }
}

impl<'a> TrustAnchor<'a> {
    /// The trust information of a certificate, with its name constraints. Its
    /// validity and its own signature do not count.
    pub fn from_cert(cert: &cert::Cert<'a>) -> (r: Self)
        ensures
            r@ == (AnchorView {
                subject: cert@.tbs.subject,
                spki: cert@.tbs.spki,
                constraints: AnchorConstraintsView::CertificateExtensions(extension_list(cert@)),
            }),
    {
        Self {
            subject_der: cert.tbs.names.subject.as_der(),
            spki: cert.tbs.spki,
            constraints: AnchorConstraints::CertificateExtensions(extensions_or_none(cert)),
        }
    }

    /// An anchor without constraints.
    pub fn unconstrained(subject_der: &'a [u8], spki: SubjectPublicKeyInfo<'a>) -> (r: Self)
        ensures
            r@ == (AnchorView {
                subject: subject_der@,
                spki: spki@,
                constraints: AnchorConstraintsView::Unconstrained,
            }),
    {
        Self { subject_der, spki, constraints: AnchorConstraints::Unconstrained }
    }

    /// An anchor with name constraints, given as the value of the extension.
    pub fn with_name_constraints(
        subject_der: &'a [u8],
        spki: SubjectPublicKeyInfo<'a>,
        name_constraints_der: &'a [u8],
    ) -> (r: Result<Self, Error>)
        ensures
            match constraints_in(name_constraints_der@) {
                Ok(_) => r is Ok && r->Ok_0@ == (AnchorView {
                    subject: subject_der@,
                    spki: spki@,
                    constraints: AnchorConstraintsView::NameConstraints(name_constraints_der@),
                }),
                Err(e) => r is Err && r->Err_0 == e,
            },
    {
        parse_constraints(name_constraints_der)?;
        Ok(
            Self {
                subject_der,
                spki,
                constraints: AnchorConstraints::NameConstraints(name_constraints_der),
            },
        )
    }

    /// An anchor with name constraints that were read before.
    pub fn with_prepared_constraints(
        subject_der: &'a [u8],
        spki: SubjectPublicKeyInfo<'a>,
        constraints: &'a PreparedNameConstraints,
    ) -> (r: Self)
        ensures
            r@ == (AnchorView {
                subject: subject_der@,
                spki: spki@,
                constraints: AnchorConstraintsView::Prepared(constraints@),
            }),
    {
        Self { subject_der, spki, constraints: AnchorConstraints::Prepared(constraints) }
    }

    /// The anchor's constraints.
    fn name_constraints(&self) -> (r: Result<Option<AnchorMatchConstraints<'a>>, Error>)
        ensures
            match anchor_constraints(self@.constraints) {
                Ok(Some(c)) => r is Ok && r->Ok_0 is Some && r->Ok_0->0@ == c,
                Ok(None) => r is Ok && r->Ok_0 is None,
                Err(e) => r is Err && r->Err_0 == e,
            },
    {
        match self.constraints {
            AnchorConstraints::Unconstrained => Ok(None),
            AnchorConstraints::NameConstraints(der) => {
                let c = parse_constraints(der)?;
                Ok(Some(AnchorMatchConstraints::Parsed(c)))
            },
            AnchorConstraints::Prepared(p) => Ok(Some(AnchorMatchConstraints::Prepared(p))),
            AnchorConstraints::CertificateExtensions(exts) => match extension_constraints(exts)? {
                Some(c) => Ok(Some(AnchorMatchConstraints::Parsed(c))),
                None => Ok(None),
            },
        }
    }

    /// Whether the anchor issued a certificate, and its constraints where it did.
    pub fn verify_subject(&self, subject: &PathCert<'_>) -> (r: Result<Option<AnchorMatch<'a>>, Error>)
        ensures
            match anchor_verdict(self@, subject@) {
                Ok(Some(c)) => r is Ok && r->Ok_0 is Some && r->Ok_0->0@ == c,
                Ok(None) => r is Ok && r->Ok_0 is None,
                Err(e) => r is Err && r->Err_0 == e,
            },
    {
        let issuer = subject.issuer;
        if !bytes_eq(self.subject_der, issuer.as_der()) {
            let name = match DistinguishedName::parse(self.subject_der) {
                Ok(n) => n,
                Err(e) => return Err(Error::from(e)),
            };
            if !name.equivalent(issuer) {
                return Ok(None);
            }
        }
        if subject.signed.verify_signature(&self.spki).is_err() {
            return Ok(None);
        }
        let constraints = self.name_constraints()?;
        Ok(Some(AnchorMatch { constraints }))
    }
}

/// The name constraints among a certificate's extensions.
fn extension_constraints<'a>(exts: &'a [u8]) -> (r: Result<Option<NameConstraints<'a>>, Error>)
    ensures
        match constraints_among(extensions_of(exts@), None) {
            Ok(c) => r is Ok && found_view(r->Ok_0) == c,
            Err(e) => r is Err && r->Err_0 == e,
        },
{
    let mut found: Option<NameConstraints<'a>> = None;
    let mut it = ExtensionIter::new(exts);
    loop
        invariant
            constraints_among(extensions_of(exts@), None) == constraints_among(it@, found_view(found)),
        decreases it@.rest.len(),
    {
        proof {
            lemma_extension_consumes(it@.rest);
        }
        match it.next() {
            None => return Ok(found),
            Some(Err(e)) => return Err(Error::from(e)),
            Some(Ok(x)) => {
                if x.oid.is(&OID_NAME_CONSTRAINTS) {
                    let c = parse_constraints(x.value)?;
                    found = Some(c);
                }
            },
        }
    }
}

spec fn found_view(f: Option<NameConstraints<'_>>) -> Option<ConstraintsView> {
    match f {
        Some(c) => Some(ConstraintsView { permitted: c.permitted@, excluded: c.excluded@ }),
        None => None,
    }
}

/// Constraints of a trust anchor as they are checked.
#[derive(Debug, Clone, Copy)]
pub enum AnchorMatchConstraints<'a> {
    /// As they were read.
    Parsed(NameConstraints<'a>),
    /// Sorted by kind beforehand.
    Prepared(&'a PreparedNameConstraints),
}

impl<'a> View for AnchorMatchConstraints<'a> {
    type V = AnchorMatchView;

    open spec fn view(&self) -> AnchorMatchView {
        match self {
            AnchorMatchConstraints::Parsed(c) => AnchorMatchView::Parsed(
                ConstraintsView { permitted: c.permitted@, excluded: c.excluded@ },
            ),
            AnchorMatchConstraints::Prepared(p) => AnchorMatchView::Prepared(p@),
        }
    }
}

impl<'a> AnchorMatchConstraints<'a> {
    /// Whether the constraints allow every name of every certificate below.
    pub fn check(&self, below: &Vec<Profile<'_>>) -> (r: Result<(), Error>)
        ensures
            r == match_verdict(self@, profile_views(below@)),
    {
        match self {
            AnchorMatchConstraints::Parsed(c) => check_name_constraints(c, below),
            AnchorMatchConstraints::Prepared(p) => p.check_prepared_name_constraints(below),
        }
    }
}

/// The constraints of the anchor that issued a certificate.
#[derive(Debug, Clone, Copy)]
pub struct AnchorMatch<'a> {
    pub constraints: Option<AnchorMatchConstraints<'a>>,
}

impl<'a> View for AnchorMatch<'a> {
    type V = Option<AnchorMatchView>;

    open spec fn view(&self) -> Option<AnchorMatchView> {
        match self.constraints {
            Some(c) => Some(c@),
            None => None,
        }
    }
}

/// A certificate's extensions: an empty list where it has none.
pub open spec fn extension_list(c: CertView) -> Seq<u8> {
    match c.tbs.extensions {
        Some(x) => x,
        None => Seq::empty(),
    }
}

fn extensions_or_none<'a>(cert: &cert::Cert<'a>) -> (r: &'a [u8])
    ensures
        r@ == extension_list(cert@),
{
    match cert.tbs.extensions_der {
        Some(x) => x,
        None => {
            let none: &'a [u8] = &[];
            assert(none@ =~= Seq::empty());
            none
        },
    }
}

/// What a path needs of a certificate.
#[verifier::ext_equal]
pub struct PathCertView {
    pub tbs_der: Seq<u8>,
    pub algorithm: cert::algorithm::Signature,
    pub signature: Seq<u8>,
    pub issuer: Seq<u8>,
    pub subject: Seq<u8>,
    pub issuer_key: Seq<u8>,
    pub validity: cert::Validity,
    pub spki: SpkiView,
    pub extensions: Seq<u8>,
}

/// What a path needs of a certificate.
pub open spec fn path_cert(c: CertView) -> PathCertView {
    PathCertView {
        tbs_der: c.tbs_der,
        algorithm: c.tbs.signature_alg,
        signature: c.signature,
        issuer: c.tbs.issuer,
        subject: c.tbs.subject,
        issuer_key: c.tbs.issuer_key,
        validity: c.tbs.validity,
        spki: c.tbs.spki,
        extensions: extension_list(c),
    }
}

/// What a certificate's extensions say, where they can be read and the
/// certificate is valid at a time.
pub open spec fn prepared(c: PathCertView, now: i64) -> Result<ProfileView, Error> {
    match profile(c.extensions) {
        Err(e) => Err(e),
        Ok(p) => if now < c.validity.not_before.0 {
            Err(Error::NotYetValid)
        } else if now > c.validity.not_after.0 {
            Err(Error::Expired)
        } else {
            Ok(p)
        },
    }
}

/// What a path needs of a certificate.
#[derive(Clone, Copy)]
pub struct PathCert<'der> {
    pub signed: cert::Signed<'der>,
    pub issuer: DistinguishedName<'der>,
    pub subject: DistinguishedName<'der>,
    pub issuer_key: NameKey,
    pub validity: cert::Validity,
    pub spki: SubjectPublicKeyInfo<'der>,
    pub extensions: &'der [u8],
}

impl<'der> View for PathCert<'der> {
    type V = PathCertView;

    open spec fn view(&self) -> PathCertView {
        PathCertView {
            tbs_der: self.signed@.0,
            algorithm: self.signed@.1,
            signature: self.signed@.2,
            issuer: self.issuer@,
            subject: self.subject@,
            issuer_key: self.issuer_key@,
            validity: self.validity,
            spki: self.spki@,
            extensions: self.extensions@,
        }
    }
}

impl<'der> PathCert<'der> {
    /// What a path needs of a certificate.
    pub fn new(cert: &cert::Cert<'der>) -> (r: Self)
        requires
            hashable(cert@.tbs_der),
        ensures
            r@ == path_cert(cert@),
    {
        Self {
            signed: cert.signed(),
            issuer: cert.tbs.names.issuer,
            subject: cert.tbs.names.subject,
            issuer_key: cert.tbs.names.issuer_key,
            validity: cert.tbs.validity,
            spki: cert.tbs.spki,
            extensions: extensions_or_none(cert),
        }
    }

    /// What the extensions say, where they can be read and the certificate is valid.
    pub fn prepare(&self, now: UnixTime) -> (r: Result<Profile<'der>, Error>)
        ensures
            match prepared(self@, now.0) {
                Ok(p) => r is Ok && r->Ok_0@ == p,
                Err(e) => r is Err && r->Err_0 == e,
            },
    {
        let p = Profile::parse(self.extensions)?;
        if now.0 < self.validity.not_before.0 {
            return Err(Error::NotYetValid);
        }
        if now.0 > self.validity.not_after.0 {
            return Err(Error::Expired);
        }
        Ok(p)
    }
}

/// The end entity of a chain that was validated.
#[derive(Debug, Clone, Copy)]
pub struct ValidatedLeaf<'der> {
    spki: SubjectPublicKeyInfo<'der>,
}

impl<'der> View for ValidatedLeaf<'der> {
    type V = SpkiView;

    closed spec fn view(&self) -> SpkiView {
        self.spki@
    }
}

impl<'der> ValidatedLeaf<'der> {
    /// The end entity's key.
    pub fn spki(self) -> (r: SubjectPublicKeyInfo<'der>)
        ensures
            r@ == self@,
    {
        self.spki
    }
}

/// What is wrong with certificates as a chain for a host, if anything.
pub open spec fn chain_verdict(v: ChainView, anchors: Seq<AnchorView>, now: i64, host: Seq<u8>) -> Result<
    (),
    Error,
> {
    if v.too_long {
        Err(Error::ChainTooLong)
    } else if v.certs.len() == 0 {
        Err(Error::Empty)
    } else {
        search_verdict(SearchView { certs: v.certs, anchors, now }, host)
    }
}

/// The certificates of a chain, and whether there were more than it may have.
#[verifier::ext_equal]
pub struct ChainView {
    pub certs: Seq<PathCertView>,
    pub too_long: bool,
}

/// The certificates that a peer sent, the end entity's first.
pub struct Chain<'der> {
    certs: Vec<PathCert<'der>>,
    too_long: bool,
}

/// What a path needs of each certificate.
pub open spec fn path_certs(l: Seq<PathCert<'_>>) -> Seq<PathCertView> {
    l.map_values(|c: PathCert<'_>| c@)
}

/// What each trust anchor is.
pub open spec fn anchor_views(l: Seq<TrustAnchor<'_>>) -> Seq<AnchorView> {
    l.map_values(|a: TrustAnchor<'_>| a@)
}

impl<'der> View for Chain<'der> {
    type V = ChainView;

    closed spec fn view(&self) -> ChainView {
        ChainView { certs: path_certs(self.certs@), too_long: self.too_long }
    }
}

impl<'der> Chain<'der> {
    #[verifier::type_invariant]
    spec fn valid(self) -> bool {
        self.certs@.len() <= MAX_LEN
    }

    /// A chain of certificates, the end entity's first.
    pub fn new(certs: &[cert::Cert<'der>]) -> (r: Self)
        requires
            forall|i: int| 0 <= i < certs@.len() ==> hashable((#[trigger] certs@[i])@.tbs_der),
        ensures
            r@.too_long == (certs@.len() > MAX_LEN),
            r@.certs == certs@.take(
                if certs@.len() > MAX_LEN { MAX_LEN as int } else { certs@.len() as int },
            ).map_values(|c: cert::Cert<'der>| path_cert(c@)),
    {
        let mut out: Vec<PathCert<'der>> = Vec::new();
        let n: usize = if certs.len() > MAX_LEN {
            MAX_LEN
        } else {
            certs.len()
        };
        let mut i: usize = 0;
        while i < n
            invariant
                i <= n <= certs@.len(),
                forall|i: int| 0 <= i < certs@.len() ==> hashable((#[trigger] certs@[i])@.tbs_der),
                path_certs(out@) == certs@.take(i as int).map_values(
                    |c: cert::Cert<'der>| path_cert(c@),
                ),
                out@.len() == i,
            decreases n - i,
        {
            let ghost before = path_certs(out@);
            out.push(PathCert::new(&certs[i]));
            i = i + 1;
            proof {
                let f = |c: cert::Cert<'der>| path_cert(c@);
                assert(path_certs(out@) =~= before.push(path_cert(certs@[i - 1]@)));
                assert(certs@.take(i as int).map_values(f) =~= certs@.take(i - 1).map_values(f).push(
                    path_cert(certs@[i - 1]@),
                ));
            }
        }
        Self { certs: out, too_long: certs.len() > MAX_LEN }
    }

    /// A chain without certificates.
    pub fn empty() -> (r: Self)
        ensures
            r@ == (ChainView { certs: Seq::empty(), too_long: false }),
    {
        let r = Self { certs: Vec::new(), too_long: false };
        assert(path_certs(r.certs@) =~= Seq::empty());
        r
    }

    /// Appends a certificate where the chain has room for it.
    pub fn try_push(&mut self, certificate: &cert::Cert<'der>) -> (r: Result<(), Error>)
        requires
            hashable(certificate@.tbs_der),
        ensures
            old(self)@.certs.len() < MAX_LEN ==> r is Ok && final(self)@ == (ChainView {
                certs: old(self)@.certs.push(path_cert(certificate@)),
                too_long: old(self)@.too_long,
            }),
            old(self)@.certs.len() >= MAX_LEN ==> r is Err && r->Err_0 == Error::ChainTooLong
                && final(self)@ == old(self)@,
    {
        proof {
            use_type_invariant(&*self);
        }
        if self.certs.len() >= MAX_LEN {
            return Err(Error::ChainTooLong);
        }
        let ghost before = self@.certs;
        let mut certs: Vec<PathCert<'der>> = Vec::new();
        let mut i: usize = 0;
        while i < self.certs.len()
            invariant
                i <= self.certs.len(),
                certs@ == self.certs@.take(i as int),
            decreases self.certs.len() - i,
        {
            certs.push(self.certs[i]);
            i = i + 1;
        }
        assert(certs@ =~= self.certs@);
        certs.push(PathCert::new(certificate));
        assert(path_certs(certs@) =~= before.push(path_cert(certificate@)));
        self.certs = certs;
        Ok(())
    }

    /// Whether some of the certificates form a path from the first one, which is
    /// that of a server named `hostname_dns_id`, to a trust anchor, all valid at
    /// `now`.
    pub fn validate(
        self,
        trust_anchors: &[TrustAnchor<'_>],
        now: UnixTime,
        hostname_dns_id: &[u8],
    ) -> (r: Result<(), Error>)
        ensures
            r == chain_verdict(self@, anchor_views(trust_anchors@), now.0, hostname_dns_id@),
    {
        match self.validate_with_anchors(trust_anchors, now, hostname_dns_id) {
            Ok(_) => {
                assert(chain_verdict(self@, anchor_views(trust_anchors@), now.0, hostname_dns_id@)->Ok_0 == ());
                Ok(())
            },
            Err(e) => Err(e),
        }
    }

    /// Validates the chain and gives out the end entity's key.
    pub fn validate_with_anchors(
        &self,
        trust_anchors: &[TrustAnchor<'_>],
        now: UnixTime,
        hostname_dns_id: &[u8],
    ) -> (r: Result<ValidatedLeaf<'der>, Error>)
        ensures
            match chain_verdict(self@, anchor_views(trust_anchors@), now.0, hostname_dns_id@) {
                Ok(_) => r is Ok && r->Ok_0@ == self@.certs[0].spki,
                Err(e) => r is Err && r->Err_0 == e,
            },
    {
        proof {
            use_type_invariant(self);
        }
        if self.too_long {
            return Err(Error::ChainTooLong);
        }
        if self.certs.len() == 0 {
            return Err(Error::Empty);
        }
        Search::new(&self.certs, trust_anchors, now).run(hostname_dns_id)?;
        Ok(ValidatedLeaf { spki: self.certs[0].spki })
    }

    /// What the first trust anchor that issued a certificate makes of it.
    pub fn verifies_against_anchor<'anchor>(
        subject: &PathCert<'_>,
        anchors: &[TrustAnchor<'anchor>],
    ) -> (r: Result<Option<AnchorMatch<'anchor>>, Error>)
        ensures
            match anchors_verdict(anchor_views(anchors@), subject@, 0) {
                Ok(Some(c)) => r is Ok && r->Ok_0 is Some && r->Ok_0->0@ == c,
                Ok(None) => r is Ok && r->Ok_0 is None,
                Err(e) => r is Err && r->Err_0 == e,
            },
    {
        let ghost views = anchor_views(anchors@);
        let mut i: usize = 0;
        while i < anchors.len()
            invariant
                i <= anchors.len(),
                views == anchor_views(anchors@),
                anchors_verdict(views, subject@, 0) == anchors_verdict(views, subject@, i as int),
            decreases anchors.len() - i,
        {
            assert(views[i as int] == anchors@[i as int]@);
            if let Some(m) = anchors[i].verify_subject(subject)? {
                return Ok(Some(m));
            }
            i = i + 1;
        }
        Ok(None)
    }
}

} // verus!
