//! What a certificate's extensions say about its place in a path.

use vstd::prelude::*;

use crate::identity::cert;
use crate::identity::cert::ext::scope::{
    dns_match, general_names, has_kind, ip_match, lemma_kind_front, name_constraints, names, on_dns, on_ip,
    on_other, or_none, GeneralName, GeneralNameView, GeneralNames, NameConstraints,
};
use crate::identity::cert::ext::{
    after_extension, basic_constraints, extended_key_usage, extensions_of, is_handled_oid, key_usage,
    lemma_extension_consumes, next_extension, BasicConstraints, ExtendedKeyUsages, ExtensionEntry, ExtensionIter,
    ExtensionView, ExtensionsView, KeyUsage, OID_BASIC_CONSTRAINTS, OID_EKU_ANY, OID_EKU_SERVER_AUTH,
    OID_EXTENDED_KEY_USAGE, OID_KEY_USAGE, OID_NAME_CONSTRAINTS, OID_SUBJECT_ALT_NAME,
};
use crate::identity::chain::{Error, MAX_LEN};
use crate::identity::hostname::{ip_address, name_matches, octets_slice, Hostname};

verus! {

/// Permitted and excluded subtrees.
#[verifier::ext_equal]
pub struct ConstraintsView {
    pub permitted: Seq<GeneralNameView>,
    pub excluded: Seq<GeneralNameView>,
}

/// What a certificate's extensions say.
#[verifier::ext_equal]
pub struct ProfileView {
    pub names: Seq<GeneralNameView>,
    pub constraints: Option<ConstraintsView>,
    pub basic: Option<BasicConstraints>,
    pub usage: Option<u16>,
    /// Whether the extended key usage names server authentication, and any usage.
    pub purpose: Option<(bool, bool)>,
}

/// A certificate without extensions.
pub open spec fn no_extensions() -> ProfileView {
    ProfileView { names: Seq::empty(), constraints: None, basic: None, usage: None, purpose: None }
}

/// A certificate error as a chain error.
pub open spec fn from_cert(e: cert::Error) -> Error {
    if e == cert::Error::DuplicateExtension {
        Error::DuplicateExtension
    } else {
        Error::Parse
    }
}

/// A profile with one more extension.
#[verifier::opaque]
pub open spec fn with_extension(p: ProfileView, x: ExtensionView) -> Result<ProfileView, Error> {
    if x.critical && !is_handled_oid(x.oid) {
        Err(Error::UnhandledCriticalExtension)
    } else if x.oid == OID_BASIC_CONSTRAINTS@ {
        match basic_constraints(x.value) {
            Ok(b) => Ok(ProfileView { basic: Some(b), ..p }),
            Err(_) => Err(Error::Parse),
        }
    } else if x.oid == OID_KEY_USAGE@ {
        match key_usage(x.value) {
            Ok(u) => Ok(ProfileView { usage: Some(u), ..p }),
            Err(_) => Err(Error::Parse),
        }
    } else if x.oid == OID_EXTENDED_KEY_USAGE@ {
        match extended_key_usage(x.value) {
            Ok(l) => Ok(
                ProfileView {
                    purpose: Some((l.contains(OID_EKU_SERVER_AUTH@), l.contains(OID_EKU_ANY@))),
                    ..p
                },
            ),
            Err(e) => Err(from_cert(e)),
        }
    } else if x.oid == OID_NAME_CONSTRAINTS@ {
        match name_constraints(x.value) {
            Ok((permitted, excluded)) => Ok(
                ProfileView {
                    constraints: Some(
                        ConstraintsView { permitted: or_none(permitted), excluded: or_none(excluded) },
                    ),
                    ..p
                },
            ),
            Err(e) => Err(from_cert(e)),
        }
    } else if x.oid == OID_SUBJECT_ALT_NAME@ {
        match general_names(x.value) {
            Ok(l) => Ok(ProfileView { names: l, ..p }),
            Err(e) => Err(from_cert(e)),
        }
    } else {
        Ok(p)
    }
}

/// A profile with the extensions that are left.
pub open spec fn with_extensions(p: ProfileView, v: ExtensionsView) -> Result<ProfileView, Error>
    decreases v.rest.len(),
{
    match next_extension(v) {
        None => Ok(p),
        Some(Err(e)) => Err(from_cert(e)),
        Some(Ok(x)) => match with_extension(p, x) {
            Err(e) => Err(e),
            Ok(q) => {
                proof {
                    lemma_extension_consumes(v.rest);
                }
                with_extensions(q, after_extension(v))
            },
        },
    }
}

/// What a list of extensions says.
pub open spec fn profile(exts: Seq<u8>) -> Result<ProfileView, Error> {
    with_extensions(no_extensions(), extensions_of(exts))
}

/// Whether the subject is a CA.
pub open spec fn is_ca(p: ProfileView) -> bool {
    p.basic matches Some(b) && b.ca
}

/// How many certificates may come between the subject and the end entity: at most
/// as many as a chain can have.
pub open spec fn path_limit(p: ProfileView) -> int {
    match p.basic {
        Some(b) => match b.path_len_constraint {
            Some(n) => if n < MAX_LEN {
                n as int
            } else {
                MAX_LEN as int
            },
            None => 255,
        },
        None => 255,
    }
}

/// Whether key usages include one.
pub open spec fn allows(usage: u16, bit: u16) -> bool {
    usage & bit == bit
}

/// Whether one of the names is the host: its address where the host is an address
/// in text, and otherwise a DNS name that matches.
pub open spec fn names_host(l: Seq<GeneralNameView>, host: Seq<u8>) -> bool {
    match ip_address(host) {
        Some(a) => has_kind(l, |n: GeneralNameView| n == GeneralNameView::Ip(a)),
        None => has_kind(l, |n: GeneralNameView| n is Dns && name_matches(n->Dns_0, host)),
    }
}

/// What is wrong with a certificate as that of a server named `host`, if anything.
pub open spec fn leaf_verdict(p: ProfileView, host: Seq<u8>) -> Result<(), Error> {
    if is_ca(p) {
        Err(Error::NotEndEntity)
    } else if p.usage is Some && !allows(p.usage->0, KeyUsage::DIGITAL_SIGNATURE) {
        Err(Error::LeafKeyUsageInvalid)
    } else if p.purpose is Some && !(p.purpose->0).0 {
        Err(Error::NoServerAuth)
    } else if !names_host(p.names, host) {
        Err(Error::HostnameMismatch)
    } else {
        Ok(())
    }
}

/// Whether constraints allow a name.
pub open spec fn name_allowed(c: ConstraintsView, n: GeneralNameView) -> bool {
    match n {
        GeneralNameView::Dns(d) => !dns_match(c.excluded, d) && (has_kind(
            c.permitted,
            |m: GeneralNameView| on_dns(m),
        ) ==> dns_match(c.permitted, d)),
        GeneralNameView::Ip(a) => !ip_match(c.excluded, a) && (has_kind(
            c.permitted,
            |m: GeneralNameView| on_ip(m),
        ) ==> ip_match(c.permitted, a)),
        GeneralNameView::Other(_, _) => true,
    }
}

/// Whether constraints allow every name of a certificate.
pub open spec fn profile_allowed(c: ConstraintsView, p: ProfileView) -> bool {
    forall|i: int| 0 <= i < p.names.len() ==> name_allowed(c, #[trigger] p.names[i])
}

/// Whether every constraint is on names of a form that is checked.
pub open spec fn supported(c: ConstraintsView) -> bool {
    &&& !has_kind(c.permitted, |m: GeneralNameView| on_other(m))
    &&& !has_kind(c.excluded, |m: GeneralNameView| on_other(m))
}

/// Whether constraints allow every name of every certificate below.
pub open spec fn constraints_verdict(c: ConstraintsView, below: Seq<ProfileView>) -> Result<(), Error> {
    if supported(c) && forall|i: int| 0 <= i < below.len() ==> profile_allowed(c, #[trigger] below[i]) {
        Ok(())
    } else {
        Err(Error::NameConstraintViolation)
    }
}

/// What is wrong with a certificate as the issuer of the last one of a path, if
/// anything.
pub open spec fn issuer_verdict(p: ProfileView, below: Seq<ProfileView>) -> Result<(), Error> {
    if !is_ca(p) {
        Err(Error::IssuerNotCa)
    } else if p.usage is Some && !allows(p.usage->0, KeyUsage::KEY_CERT_SIGN) {
        Err(Error::NoKeyCertSign)
    } else if p.purpose is Some && !(p.purpose->0).0 && !(p.purpose->0).1 {
        Err(Error::NoServerAuth)
    } else if below.len() - 1 > path_limit(p) {
        Err(Error::PathLenExceeded)
    } else {
        match p.constraints {
            Some(c) => constraints_verdict(c, below),
            None => Ok(()),
        }
    }
}

/// What is wrong with an issuer does not depend on the order of the certificates
/// below it.
pub proof fn lemma_verdict_of_set(p: ProfileView, a: Seq<ProfileView>, b: Seq<ProfileView>)
    requires
        a.len() == b.len(),
        forall|i: int| 0 <= i < a.len() ==> b.contains(#[trigger] a[i]),
        forall|i: int| 0 <= i < b.len() ==> a.contains(#[trigger] b[i]),
    ensures
        issuer_verdict(p, a) == issuer_verdict(p, b),
{
    if let Some(c) = p.constraints {
        lemma_constraints_of_set(c, a, b);
    }
}

/// Nor does what constraints allow.
pub proof fn lemma_constraints_of_set(c: ConstraintsView, a: Seq<ProfileView>, b: Seq<ProfileView>)
    requires
        forall|i: int| 0 <= i < a.len() ==> b.contains(#[trigger] a[i]),
        forall|i: int| 0 <= i < b.len() ==> a.contains(#[trigger] b[i]),
    ensures
        constraints_verdict(c, a) == constraints_verdict(c, b),
{
    if forall|i: int| 0 <= i < b.len() ==> profile_allowed(c, #[trigger] b[i]) {
        assert forall|i: int| 0 <= i < a.len() implies profile_allowed(c, #[trigger] a[i]) by {
            let j = choose|j: int| 0 <= j < b.len() && b[j] == a[i];
            assert(profile_allowed(c, b[j]));
        }
    }
    if forall|i: int| 0 <= i < a.len() ==> profile_allowed(c, #[trigger] a[i]) {
        assert forall|i: int| 0 <= i < b.len() implies profile_allowed(c, #[trigger] b[i]) by {
            let j = choose|j: int| 0 <= j < a.len() && a[j] == b[i];
            assert(profile_allowed(c, a[j]));
        }
    }
}

/// What a certificate's extensions say.
#[derive(Clone, Copy)]
pub struct Profile<'a> {
    names: &'a [u8],
    constraints: Option<NameConstraints<'a>>,
    basic: Option<BasicConstraints>,
    usage: Option<KeyUsage>,
    purpose: Option<(bool, bool)>,
}

/// The names that contents hold: none where they are empty.
pub open spec fn names_in(contents: Seq<u8>) -> Seq<GeneralNameView> {
    if contents.len() == 0 {
        Seq::empty()
    } else {
        names(contents, 0)->Ok_0
    }
}

impl<'a> View for Profile<'a> {
    type V = ProfileView;

    closed spec fn view(&self) -> ProfileView {
        ProfileView {
            names: names_in(self.names@),
            constraints: match self.constraints {
                Some(c) => Some(
                    ConstraintsView { permitted: c.permitted@, excluded: c.excluded@ },
                ),
                None => None,
            },
            basic: self.basic,
            usage: match self.usage {
                Some(u) => Some(u@),
                None => None,
            },
            purpose: self.purpose,
        }
    }
}

fn usages_of(value: &[u8]) -> (r: Result<(bool, bool), Error>)
    ensures
        match extended_key_usage(value@) {
            Ok(l) => r == Ok::<(bool, bool), Error>(
                (l.contains(OID_EKU_SERVER_AUTH@), l.contains(OID_EKU_ANY@)),
            ),
            Err(e) => r == Err::<(bool, bool), Error>(from_cert(e)),
        },
{
    let usages = match ExtendedKeyUsages::parse(value) {
        Ok(u) => u,
        Err(e) => return Err(Error::from(e)),
    };
    let ghost l = usages@;
    let mut it = usages.iter();
    let mut server_auth = false;
    let mut any = false;
    let ghost mut done = Seq::<Seq<u8>>::empty();
    assert(done + it@ =~= l);
    loop
        invariant
            done + it@ == l,
            extended_key_usage(value@) == Ok::<Seq<Seq<u8>>, cert::Error>(l),
            server_auth == done.contains(OID_EKU_SERVER_AUTH@),
            any == done.contains(OID_EKU_ANY@),
        decreases it@.len(),
    {
        let ghost left = it@;
        match it.next() {
            None => {
                assert(done =~= l);
                return Ok((server_auth, any));
            },
            Some(Err(e)) => return Err(Error::from(e)),
            Some(Ok(oid)) => {
                let is_server = oid.is(&OID_EKU_SERVER_AUTH);
                let is_any = oid.is(&OID_EKU_ANY);
                server_auth = server_auth || is_server;
                any = any || is_any;
                proof {
                    let before = done;
                    done = done.push(oid@);
                    assert(done + it@ =~= before + left);
                    lemma_contains_push(before, oid@, OID_EKU_SERVER_AUTH@);
                    lemma_contains_push(before, oid@, OID_EKU_ANY@);
                }
            },
        }
    }
}

proof fn lemma_contains_push(l: Seq<Seq<u8>>, x: Seq<u8>, y: Seq<u8>)
    ensures
        l.push(x).contains(y) == (l.contains(y) || x == y),
{
    if l.contains(y) {
        let i = choose|i: int| 0 <= i < l.len() && l[i] == y;
        assert(l.push(x)[i] == y);
    }
    if x == y {
        assert(l.push(x)[l.len() as int] == y);
    }
}

impl<'a> Profile<'a> {
    #[verifier::type_invariant]
    spec fn valid(self) -> bool {
        self.names@.len() > 0 ==> names(self.names@, 0) is Ok
    }

    /// Reads a list of extensions.
    pub fn parse(exts: &'a [u8]) -> (r: Result<Self, Error>)
        ensures
            match profile(exts@) {
                Ok(p) => r is Ok && r->Ok_0@ == p,
                Err(e) => r is Err && r->Err_0 == e,
            },
    {
        let none: &'a [u8] = &[];
        let mut p = Profile { names: none, constraints: None, basic: None, usage: None, purpose: None };
        let mut it = ExtensionIter::new(exts);
        assert(p@ =~= no_extensions());
        loop
            invariant
                profile(exts@) == with_extensions(p@, it@),
            decreases it@.rest.len(),
        {
            proof {
                lemma_extension_consumes(it@.rest);
            }
            match it.next() {
                None => return Ok(p),
                Some(Err(e)) => return Err(Error::from(e)),
                Some(Ok(x)) => {
                    p = p.with(x)?;
                },
            }
        }
    }

    fn with(self, x: ExtensionEntry<'a>) -> (r: Result<Self, Error>)
        ensures
            match with_extension(self@, x@) {
                Ok(p) => r is Ok && r->Ok_0@ == p,
                Err(e) => r is Err && r->Err_0 == e,
            },
    {
        reveal(with_extension);
        proof {
            use_type_invariant(&self);
        }
        let Profile { names, constraints, basic, usage, purpose } = self;
        if x.critical && !ExtensionEntry::is_handled(x.oid) {
            return Err(Error::UnhandledCriticalExtension);
        }
        if x.oid.is(&OID_BASIC_CONSTRAINTS) {
            match BasicConstraints::parse(x.value) {
                Ok(b) => Ok(Profile { names, constraints, basic: Some(b), usage, purpose }),
                Err(e) => Err(Error::from(e)),
            }
        } else if x.oid.is(&OID_KEY_USAGE) {
            match KeyUsage::parse(x.value) {
                Ok(u) => Ok(Profile { names, constraints, basic, usage: Some(u), purpose }),
                Err(e) => Err(Error::from(e)),
            }
        } else if x.oid.is(&OID_EXTENDED_KEY_USAGE) {
            let p = usages_of(x.value)?;
            Ok(Profile { names, constraints, basic, usage, purpose: Some(p) })
        } else if x.oid.is(&OID_NAME_CONSTRAINTS) {
            match NameConstraints::parse(x.value) {
                Ok(c) => Ok(Profile { names, constraints: Some(c), basic, usage, purpose }),
                Err(e) => Err(Error::from(e)),
            }
        } else if x.oid.is(&OID_SUBJECT_ALT_NAME) {
            match GeneralNames::parse(x.value) {
                Ok(l) => {
                    let contents = l.contents();
                    assert(contents@.len() > 0);
                    Ok(Profile { names: contents, constraints, basic, usage, purpose })
                },
                Err(e) => Err(Error::from(e)),
            }
        } else {
            Ok(self)
        }
    }

    /// Whether the certificate is that of a server named `host`.
    pub fn check_leaf(&self, host: &[u8]) -> (r: Result<(), Error>)
        ensures
            r == leaf_verdict(self@, host@),
    {
        self.check_end_entity()?;
        self.check_server_auth()?;
        self.check_hostname(host)
    }

    fn check_end_entity(&self) -> (r: Result<(), Error>)
        ensures
            r == if is_ca(self@) {
                Err::<(), Error>(Error::NotEndEntity)
            } else if self@.usage is Some && !allows(self@.usage->0, KeyUsage::DIGITAL_SIGNATURE) {
                Err(Error::LeafKeyUsageInvalid)
            } else {
                Ok(())
            },
    {
        if let Some(b) = self.basic {
            if b.ca {
                return Err(Error::NotEndEntity);
            }
        }
        if let Some(u) = self.usage {
            if !u.has(KeyUsage::DIGITAL_SIGNATURE) {
                return Err(Error::LeafKeyUsageInvalid);
            }
        }
        Ok(())
    }

    fn check_server_auth(&self) -> (r: Result<(), Error>)
        ensures
            r == if self@.purpose is Some && !(self@.purpose->0).0 {
                Err::<(), Error>(Error::NoServerAuth)
            } else {
                Ok(())
            },
    {
        if let Some((server_auth, _)) = self.purpose {
            if !server_auth {
                return Err(Error::NoServerAuth);
            }
        }
        Ok(())
    }

    fn check_hostname(&self, host: &[u8]) -> (r: Result<(), Error>)
        ensures
            r == if names_host(self@.names, host@) {
                Ok::<(), Error>(())
            } else {
                Err(Error::HostnameMismatch)
            },
    {
        proof {
            use_type_invariant(self);
        }
        let reference = Hostname::new(host);
        let target = reference.parse_ip();
        if self.names.len() == 0 {
            return Err(Error::HostnameMismatch);
        }
        let mut it = GeneralNames::from_validated_contents(self.names).iter();
        let ghost l = self@.names;
        let ghost mut read: nat = 0;
        let ghost kind = match ip_address(host@) {
            Some(a) => |n: GeneralNameView| n == GeneralNameView::Ip(a),
            None => |n: GeneralNameView| n is Dns && name_matches(n->Dns_0, host@),
        };
        loop
            invariant
                names(it@, read) is Ok,
                names_host(l, host@) == has_kind(l, kind),
                l == self@.names,
                reference@ == host@,
                match ip_address(host@) {
                    Some(a) => target is Some && crate::identity::hostname::octets(target->0) == a && kind == (
                    |n: GeneralNameView| n == GeneralNameView::Ip(a)),
                    None => target is None && kind == (|n: GeneralNameView|
                        n is Dns && name_matches(n->Dns_0, host@)),
                },
                has_kind(l, kind) == has_kind(names(it@, read)->Ok_0, kind),
            decreases it@.len(),
        {
            let ghost rest = names(it@, read)->Ok_0;
            proof {
                crate::identity::asn1::lemma_tlv_consumes(it@);
            }
            match it.next() {
                None => return Err(Error::HostnameMismatch),
                Some(Err(e)) => return Err(Error::from(e)),
                Some(Ok(name)) => {
                    proof {
                        lemma_kind_front(rest, kind);
                        read = read + 1;
                        assert(rest.skip(1) =~= names(it@, read)->Ok_0);
                    }
                    match (name, &target) {
                        (GeneralName::IpAddress(pattern), Some(t)) => {
                            if Hostname::new(octets_slice(t)).matches_ip(pattern) {
                                return Ok(());
                            }
                        },
                        (GeneralName::DnsName(pattern), None) => {
                            if reference.matches_dns(pattern) {
                                return Ok(());
                            }
                        },
                        _ => {},
                    }
                },
            }
        }
    }

    /// Whether the certificate can be the issuer of the last one of a path.
    pub fn check_issuer(&self, below: &Vec<Profile<'_>>) -> (r: Result<(), Error>)
        requires
            below.len() > 0,
        ensures
            r == issuer_verdict(self@, profile_views(below@)),
    {
        self.check_issuer_is_ca()?;
        if let Some((server_auth, any)) = self.purpose {
            if !server_auth && !any {
                return Err(Error::NoServerAuth);
            }
        }
        self.check_path_len(below.len() - 1)?;
        match &self.constraints {
            Some(c) => check_name_constraints(c, below),
            None => Ok(()),
        }
    }

    fn check_issuer_is_ca(&self) -> (r: Result<(), Error>)
        ensures
            r == if !is_ca(self@) {
                Err::<(), Error>(Error::IssuerNotCa)
            } else if self@.usage is Some && !allows(self@.usage->0, KeyUsage::KEY_CERT_SIGN) {
                Err(Error::NoKeyCertSign)
            } else {
                Ok(())
            },
    {
        let ca = match self.basic {
            Some(b) => b.ca,
            None => false,
        };
        if !ca {
            return Err(Error::IssuerNotCa);
        }
        if let Some(u) = self.usage {
            if !u.has(KeyUsage::KEY_CERT_SIGN) {
                return Err(Error::NoKeyCertSign);
            }
        }
        Ok(())
    }

    fn check_path_len(&self, position: usize) -> (r: Result<(), Error>)
        ensures
            r == if position > path_limit(self@) {
                Err::<(), Error>(Error::PathLenExceeded)
            } else {
                Ok(())
            },
    {
        let limit: usize = match self.basic {
            Some(b) => match b.path_len_constraint {
                Some(n) => if n < MAX_LEN as u64 {
                    n as usize
                } else {
                    MAX_LEN
                },
                None => 255,
            },
            None => 255,
        };
        if position > limit {
            return Err(Error::PathLenExceeded);
        }
        Ok(())
    }

    /// The certificate's alternative names.
    pub fn alternative_names(&self) -> (r: Vec<GeneralName<'a>>)
        ensures
            r@.len() == self@.names.len(),
            forall|i: int| 0 <= i < r@.len() ==> (#[trigger] r@[i])@ == self@.names[i],
    {
        proof {
            use_type_invariant(self);
        }
        let mut out: Vec<GeneralName<'a>> = Vec::new();
        if self.names.len() == 0 {
            return out;
        }
        let mut it = GeneralNames::from_validated_contents(self.names).iter();
        let ghost l = self@.names;
        loop
            invariant
                names(it@, out@.len()) is Ok,
                l == self@.names,
                out@.len() + names(it@, out@.len())->Ok_0.len() == l.len(),
                forall|i: int|
                    0 <= i < names(it@, out@.len())->Ok_0.len() ==> #[trigger] names(
                        it@,
                        out@.len(),
                    )->Ok_0[i] == l[out@.len() + i],
                forall|i: int| 0 <= i < out@.len() ==> (#[trigger] out@[i])@ == l[i],
            decreases it@.len(),
        {
            let ghost rest = names(it@, out@.len())->Ok_0;
            proof {
                crate::identity::asn1::lemma_tlv_consumes(it@);
            }
            match it.next() {
                None => return out,
                Some(Err(_)) => {
                    assert(false);
                },
                Some(Ok(name)) => {
                    assert(rest[0] == name@);
                    out.push(name);
                    assert forall|i: int| 0 <= i < names(it@, out@.len())->Ok_0.len() implies #[trigger] names(
                        it@,
                        out@.len(),
                    )->Ok_0[i] == l[out@.len() + i] by {
                        assert(names(it@, out@.len())->Ok_0[i] == rest[i + 1]);
                    }
                },
            }
        }
    }

    fn check_names(&self, c: &NameConstraints<'_>) -> (r: bool)
        ensures
            r == profile_allowed(
                ConstraintsView { permitted: c.permitted@, excluded: c.excluded@ },
                self@,
            ),
    {
        proof {
            use_type_invariant(self);
        }
        if self.names.len() == 0 {
            return true;
        }
        let mut it = GeneralNames::from_validated_contents(self.names).iter();
        let ghost l = self@.names;
        let ghost view = ConstraintsView { permitted: c.permitted@, excluded: c.excluded@ };
        let ghost mut done = Seq::<GeneralNameView>::empty();
        assert(done + l =~= l);
        loop
            invariant
                names(it@, done.len()) is Ok,
                l == self@.names,
                view == (ConstraintsView { permitted: c.permitted@, excluded: c.excluded@ }),
                l == done + names(it@, done.len())->Ok_0,
                forall|i: int| 0 <= i < done.len() ==> name_allowed(view, #[trigger] done[i]),
            decreases it@.len(),
        {
            let ghost rest = names(it@, done.len())->Ok_0;
            proof {
                crate::identity::asn1::lemma_tlv_consumes(it@);
            }
            match it.next() {
                None => {
                    assert(l =~= done);
                    return true;
                },
                Some(Err(_)) => return false,
                Some(Ok(name)) => {
                    assert(l[done.len() as int] == name@);
                    if !allowed(c, name) {
                        return false;
                    }
                    proof {
                        let before = done;
                        done = done.push(name@);
                        assert(l =~= done + names(it@, done.len())->Ok_0);
                    }
                },
            }
        }
    }
}

/// What each of a list of profiles says.
pub open spec fn profile_views(l: Seq<Profile<'_>>) -> Seq<ProfileView> {
    l.map_values(|p: Profile<'_>| p@)
}

fn allowed(c: &NameConstraints<'_>, name: GeneralName<'_>) -> (r: bool)
    ensures
        r == name_allowed(ConstraintsView { permitted: c.permitted@, excluded: c.excluded@ }, name@),
{
    match name {
        GeneralName::DnsName(d) => {
            let excluded = match c.excluded.dns_matches(d) {
                Ok(b) => b,
                Err(_) => return false,
            };
            let permitted = match c.permitted.dns_matches(d) {
                Ok(b) => b,
                Err(_) => return false,
            };
            !excluded && (c.permitted.dns_is_empty() || permitted)
        },
        GeneralName::IpAddress(a) => {
            let excluded = match c.excluded.ip_matches(a) {
                Ok(b) => b,
                Err(_) => return false,
            };
            let permitted = match c.permitted.ip_matches(a) {
                Ok(b) => b,
                Err(_) => return false,
            };
            !excluded && (c.permitted.ip_is_empty() || permitted)
        },
        GeneralName::Other { .. } => true,
    }
}

/// Whether constraints allow every name of every certificate below.
pub fn check_name_constraints(c: &NameConstraints<'_>, below: &Vec<Profile<'_>>) -> (r: Result<(), Error>)
    ensures
        r == constraints_verdict(
            ConstraintsView { permitted: c.permitted@, excluded: c.excluded@ },
            profile_views(below@),
        ),
{
    if c.permitted.has_unsupported() || c.excluded.has_unsupported() {
        return Err(Error::NameConstraintViolation);
    }
    let ghost view = ConstraintsView { permitted: c.permitted@, excluded: c.excluded@ };
    let ghost l = profile_views(below@);
    let mut i: usize = 0;
    while i < below.len()
        invariant
            i <= below.len(),
            l == profile_views(below@),
            view == (ConstraintsView { permitted: c.permitted@, excluded: c.excluded@ }),
            supported(view),
            forall|j: int| 0 <= j < i ==> profile_allowed(view, #[trigger] l[j]),
        decreases below.len() - i,
    {
        assert(l[i as int] == below@[i as int]@);
        if !below[i].check_names(c) {
            return Err(Error::NameConstraintViolation);
        }
        i = i + 1;
    }
    Ok(())
}

} // verus!
