use vstd::prelude::*;
use vstd::string::*;

use crate::models::{spec_valid_question, Question, ValidationError};
use crate::repository::{
    spec_can_assign_ids, spec_save_succeeded, RepositoryError, Store,
};
use crate::text::{
    chars_eq, chars_from, chars_to_string, spec_split, spec_trim_quotes, spec_trim_space,
    split_chars_from, str_to_chars, trim_quote_chars, trim_space_chars, lemma_split_has_parts,
};

verus! {

/// Failure of a service operation: the candidate broke a domain rule, or the
/// storage layer failed.
#[derive(Debug)]
pub enum ServiceError {
    ValidationError(ValidationError),
    RepositoryError(RepositoryError),
}

impl ServiceError {
    /// The human-readable message of the failure.
    pub open spec fn spec_message(&self) -> Seq<char> {
        match self {
            ServiceError::ValidationError(e) => e.spec_message(),
            ServiceError::RepositoryError(e) => e.spec_message(),
        }
    }

    pub fn message(&self) -> (r: String)
        ensures
            r@ == self.spec_message(),
    {
        match self {
            ServiceError::ValidationError(e) => e.message().clone(),
            ServiceError::RepositoryError(e) => e.message(),
        }
    }
}

impl From<ValidationError> for ServiceError {
    fn from(error: ValidationError) -> (r: ServiceError) {
        ServiceError::ValidationError(error)
    }
}

impl vstd::std_specs::convert::FromSpecImpl<ValidationError> for ServiceError {
    open spec fn obeys_from_spec() -> bool {
        true
    }

    open spec fn from_spec(t: ValidationError) -> Self {
        ServiceError::ValidationError(t)
    }
}

impl From<RepositoryError> for ServiceError {
    fn from(error: RepositoryError) -> (r: ServiceError) {
        ServiceError::RepositoryError(error)
    }
}

impl vstd::std_specs::convert::FromSpecImpl<RepositoryError> for ServiceError {
    open spec fn obeys_from_spec() -> bool {
        true
    }

    open spec fn from_spec(t: RepositoryError) -> Self {
        ServiceError::RepositoryError(t)
    }
}

impl Store {
    /// The write path: validates the candidate first - a violating candidate
    /// is rejected before storage is touched - and then saves it atomically.
    /// Any failure leaves the store exactly as it was.
    pub fn create_question(&mut self, question: &Question) -> (r: Result<Question, ServiceError>)
        requires
            old(self).wf(),
        ensures
            final(self).wf(),
            r is Err ==> *final(self) == *old(self),
            !spec_valid_question(question) <==> (r matches Err(ServiceError::ValidationError(_))),
            r is Ok <==> spec_valid_question(question) && old(self).spec_has_category(
                question.category@,
            ) && spec_can_assign_ids(*old(self), question.choices@.len()),
            spec_valid_question(question) && !(old(self).spec_has_category(question.category@)
                && spec_can_assign_ids(*old(self), question.choices@.len())) ==> (r matches Err(
                ServiceError::RepositoryError(_),
            )),
            r matches Ok(saved) ==> spec_save_succeeded(*old(self), *final(self), *question, saved),
    {
        if let Err(e) = Question::validate(question) {
            return Err(ServiceError::ValidationError(e));
        }
        match self.save_question(question) {
            Ok(saved) => Ok(saved),
            Err(e) => Err(ServiceError::RepositoryError(e)),
        }
    }
}

/// Names the md5 digest of a character sequence: 16 bytes that depend on the
/// hashed characters alone, the same in every process and on every machine.
pub uninterp spec fn spec_md5(input: Seq<char>) -> Seq<u8>;

/// Relies on md5's Md5 hasher through the digest interface: hashing the
/// UTF-8 form of the characters yields their 16-byte md5 digest, a function
/// of the characters alone.
#[verifier::external_body]
fn md5_bytes(input: &Vec<char>) -> (r: Vec<u8>)
    ensures
        r@ == spec_md5(input@),
        r@.len() == 16,
{
    let s: String = input.iter().collect();
    let digest = <md5::Md5 as md5::Digest>::digest(s.as_bytes());
    digest.to_vec()
}

/// Relies on uuid's Uuid::new_v4 and its display form: a fresh random
/// identifier written as 36 characters; nothing further can be promised of a
/// random value.
#[verifier::external_body]
fn random_uuid_chars() -> (r: Vec<char>)
    ensures
        r@.len() == 36,
{
    uuid::Uuid::new_v4().to_string().chars().collect()
}

/// The sixteen lower-case hex digit characters, as a spec table.
pub open spec fn spec_hex_digit(d: u8) -> char {
    if d == 0 {
        '0'
    } else if d == 1 {
        '1'
    } else if d == 2 {
        '2'
    } else if d == 3 {
        '3'
    } else if d == 4 {
        '4'
    } else if d == 5 {
        '5'
    } else if d == 6 {
        '6'
    } else if d == 7 {
        '7'
    } else if d == 8 {
        '8'
    } else if d == 9 {
        '9'
    } else if d == 10 {
        'a'
    } else if d == 11 {
        'b'
    } else if d == 12 {
        'c'
    } else if d == 13 {
        'd'
    } else if d == 14 {
        'e'
    } else {
        'f'
    }
}

/// The lower-case hex writing of a byte sequence, two digits per byte.
pub open spec fn spec_hex(bytes: Seq<u8>) -> Seq<char>
    decreases bytes.len(),
{
    if bytes.len() == 0 {
        Seq::empty()
    } else {
        spec_hex(bytes.drop_last()) + seq![
            spec_hex_digit(bytes.last() / 16),
            spec_hex_digit(bytes.last() % 16),
        ]
    }
}

/// The md5 digest written in lower-case hex, as the digest scheme uses it
/// everywhere.
pub open spec fn spec_md5_hex(input: Seq<char>) -> Seq<char> {
    spec_hex(spec_md5(input))
}

/// The hex digit character of one value below sixteen.
fn hex_digit_char(d: u8) -> (c: char)
    requires
        d < 16,
    ensures
        c == spec_hex_digit(d),
{
    if d == 0 {
        '0'
    } else if d == 1 {
        '1'
    } else if d == 2 {
        '2'
    } else if d == 3 {
        '3'
    } else if d == 4 {
        '4'
    } else if d == 5 {
        '5'
    } else if d == 6 {
        '6'
    } else if d == 7 {
        '7'
    } else if d == 8 {
        '8'
    } else if d == 9 {
        '9'
    } else if d == 10 {
        'a'
    } else if d == 11 {
        'b'
    } else if d == 12 {
        'c'
    } else if d == 13 {
        'd'
    } else if d == 14 {
        'e'
    } else {
        'f'
    }
}

/// Writes a byte sequence in lower-case hex.
fn hex_chars(bytes: &Vec<u8>) -> (r: Vec<char>)
    ensures
        r@ == spec_hex(bytes@),
{
    let mut r: Vec<char> = Vec::new();
    let mut i: usize = 0;
    while i < bytes.len()
        invariant
            i <= bytes@.len(),
            r@ == spec_hex(bytes@.take(i as int)),
        decreases bytes@.len() - i,
    {
        let b = bytes[i];
        let hi = hex_digit_char(b / 16);
        let lo = hex_digit_char(b % 16);
        r.push(hi);
        r.push(lo);
        proof {
            assert(bytes@.take(i + 1).drop_last() =~= bytes@.take(i as int));
            assert(r@ =~= spec_hex(bytes@.take(i + 1)));
        }
        i = i + 1;
    }
    proof {
        assert(bytes@.take(bytes@.len() as int) =~= bytes@);
    }
    r
}

/// The md5 hex form of a character sequence.
fn md5_hex_chars(input: &Vec<char>) -> (r: Vec<char>)
    ensures
        r@ == spec_md5_hex(input@),
{
    let b = md5_bytes(input);
    hex_chars(&b)
}

/// The key of one header field: the part before the first equals sign, with
/// surrounding white space removed.
pub open spec fn spec_field_key(field: Seq<char>) -> Seq<char> {
    spec_trim_space(spec_split(spec_trim_space(field), '=')[0])
}

/// The value of one header field: the part after the first equals sign
/// (empty when there is none), with white space and then all surrounding
/// quotes removed.
pub open spec fn spec_field_value(field: Seq<char>) -> Seq<char> {
    let parts = spec_split(spec_trim_space(field), '=');
    let raw = if parts.len() >= 2 {
        parts[1]
    } else {
        Seq::<char>::empty()
    };
    spec_trim_quotes(spec_trim_space(raw))
}

/// The value of the last field whose key matches: collecting the pairs into
/// a map keeps the later of two entries with the same key.
pub open spec fn spec_lookup_field(fields: Seq<Seq<char>>, key: Seq<char>) -> Option<Seq<char>>
    decreases fields.len(),
{
    if fields.len() == 0 {
        None
    } else if spec_field_key(fields.last()) == key {
        Some(spec_field_value(fields.last()))
    } else {
        spec_lookup_field(fields.drop_last(), key)
    }
}

/// The views of a list of character buffers.
pub open spec fn spec_views(vs: Seq<Vec<char>>) -> Seq<Seq<char>> {
    vs.map_values(|v: Vec<char>| v@)
}

/// Whether the trimmed header opens with the digest marker.
pub open spec fn spec_digest_prefix_ok(raw: Seq<char>) -> bool {
    let t = spec_trim_space(raw);
    t.len() >= 7 && t.take(7) == "Digest "@
}

/// The fields of the digest header: what follows the marker, split on
/// commas.
pub open spec fn spec_digest_fields(raw: Seq<char>) -> Seq<Seq<char>> {
    spec_split(spec_trim_space(raw).skip(7), ',')
}

/// The value of a field of the digest header, if the field is present.
pub open spec fn spec_digest_field(raw: Seq<char>, key: Seq<char>) -> Option<Seq<char>> {
    spec_lookup_field(spec_digest_fields(raw), key)
}

/// The key of one field, computed as the parser does.
fn field_key(field: &Vec<char>) -> (r: Vec<char>)
    ensures
        r@ == spec_field_key(field@),
{
    let t = trim_space_chars(field);
    proof {
        assert(t@.skip(0) =~= t@);
        lemma_split_has_parts(t@, '=');
    }
    let parts = split_chars_from(&t, 0, '=');
    trim_space_chars(&parts[0])
}

/// The value of one field, computed as the parser does.
fn field_value(field: &Vec<char>) -> (r: Vec<char>)
    ensures
        r@ == spec_field_value(field@),
{
    let t = trim_space_chars(field);
    proof {
        assert(t@.skip(0) =~= t@);
        lemma_split_has_parts(t@, '=');
    }
    let parts = split_chars_from(&t, 0, '=');
    if parts.len() >= 2 {
        let ts = trim_space_chars(&parts[1]);
        trim_quote_chars(&ts)
    } else {
        let empty: Vec<char> = Vec::new();
        let ts = trim_space_chars(&empty);
        trim_quote_chars(&ts)
    }
}

/// The value of the last field whose key matches, scanning backward.
fn lookup_field(fields: &Vec<Vec<char>>, key: &Vec<char>) -> (r: Option<Vec<char>>)
    ensures
        match r {
            Some(v) => spec_lookup_field(spec_views(fields@), key@) == Some(v@),
            None => spec_lookup_field(spec_views(fields@), key@) is None,
        },
{
    let ghost fv = spec_views(fields@);
    proof {
        assert(fv.take(fields@.len() as int) =~= fv);
    }
    let mut i: usize = fields.len();
    while i > 0
        invariant
            fv == spec_views(fields@),
            i <= fields@.len(),
            spec_lookup_field(fv, key@) == spec_lookup_field(fv.take(i as int), key@),
        decreases i,
    {
        i = i - 1;
        proof {
            assert(fv.take(i + 1).drop_last() =~= fv.take(i as int));
            assert(fv.take(i + 1).last() == fields@[i as int]@);
        }
        let k = field_key(&fields[i]);
        if chars_eq(&k, key) {
            let v = field_value(&fields[i]);
            return Some(v);
        }
    }
    proof {
        assert(fv.take(0) =~= Seq::<Seq<char>>::empty());
    }
    None
}

/// Whether the characters open with the digest marker.
fn starts_with_digest(t: &Vec<char>) -> (r: bool)
    ensures
        r == (t@.len() >= 7 && t@.take(7) == "Digest "@),
{
    if t.len() < 7 {
        return false;
    }
    let ok = t[0] == 'D' && t[1] == 'i' && t[2] == 'g' && t[3] == 'e' && t[4] == 's' && t[5] == 't'
        && t[6] == ' ';
    proof {
        reveal_strlit("Digest ");
        if ok {
            assert(t@.take(7) =~= "Digest "@);
        } else {
            if t@.take(7) == "Digest "@ {
                assert(t@[0] == t@.take(7)[0] && t@[1] == t@.take(7)[1] && t@[2] == t@.take(7)[2]
                    && t@[3] == t@.take(7)[3] && t@[4] == t@.take(7)[4] && t@[5] == t@.take(7)[5]
                    && t@[6] == t@.take(7)[6]);
            }
        }
    }
    ok
}

/// Raised when the digest authorization header cannot be accepted: it does
/// not look like a digest at all, a required field is absent, or the
/// response hash does not match.
#[derive(Debug)]
pub enum AuthorizationError {
    InvalidFormat,
    MissingField { field: String },
    IncorrectResponse,
}

impl AuthorizationError {
    /// The human-readable message of the failure.
    pub open spec fn spec_message(&self) -> Seq<char> {
        match self {
            AuthorizationError::InvalidFormat => "Expected digest format: 'Digest username=\"?\", realm=\"?\", nonce=\"?\", opaque=\"?\", uri=\"?\", response=\"?\"'."@,
            AuthorizationError::MissingField { field } => "Digest does not contain required field: '"@
                + field@ + "'"@,
            AuthorizationError::IncorrectResponse => "The 'response' field is incorrect or expired."@,
        }
    }

    pub fn message(&self) -> (r: String)
        ensures
            r@ == self.spec_message(),
    {
        match self {
            AuthorizationError::InvalidFormat => String::from_str(
                "Expected digest format: 'Digest username=\"?\", realm=\"?\", nonce=\"?\", opaque=\"?\", uri=\"?\", response=\"?\"'.",
            ),
            AuthorizationError::MissingField { field } => {
                let mut s = String::from_str("Digest does not contain required field: '");
                s.append(field.as_str());
                s.append("'");
                proof {
                    assert(s@ =~= "Digest does not contain required field: '"@ + field@ + "'"@);
                }
                s
            },
            AuthorizationError::IncorrectResponse => String::from_str(
                "The 'response' field is incorrect or expired.",
            ),
        }
    }
}

/// Checks the digest authorization of mutating requests against the one
/// administrator account it was constructed with.
pub struct AuthorizationService {
    admin_username: String,
    admin_password: String,
}

impl AuthorizationService {
    /// The administrator name the service checks against.
    pub closed spec fn spec_username(&self) -> Seq<char> {
        self.admin_username@
    }

    /// The administrator password the service checks against.
    pub closed spec fn spec_password(&self) -> Seq<char> {
        self.admin_password@
    }

    pub fn new(admin_username: &str, admin_password: &str) -> (r: AuthorizationService)
        ensures
            r.spec_username() == admin_username@,
            r.spec_password() == admin_password@,
    {
        AuthorizationService {
            admin_username: String::from_str(admin_username),
            admin_password: String::from_str(admin_password),
        }
    }

    /// An md5 hex image of some fresh 36-character identifier.
    pub open spec fn spec_hashed_id(h: Seq<char>) -> bool {
        exists|u: Seq<char>| u.len() == 36 && h == spec_md5_hex(u)
    }

    /// A fresh opaque token: the md5 hex form of a fresh random identifier.
    fn hashed_unique_id(&self) -> (r: String)
        ensures
            Self::spec_hashed_id(r@),
    {
        let u = random_uuid_chars();
        let h = md5_hex_chars(&u);
        let s = chars_to_string(&h);
        proof {
            assert(u@.len() == 36 && s@ == spec_md5_hex(u@));
        }
        s
    }

    /// The server nonce of a fresh challenge.
    pub fn nonce(&self) -> (r: String)
        ensures
            Self::spec_hashed_id(r@),
    {
        self.hashed_unique_id()
    }

    /// The opaque value of a fresh challenge.
    pub fn opaque(&self) -> (r: String)
        ensures
            Self::spec_hashed_id(r@),
    {
        self.hashed_unique_id()
    }

    /// The realm the administrator authenticates against.
    pub fn realm(&self) -> (r: String)
        ensures
            r@ == "administrator"@,
    {
        String::from_str("administrator")
    }

    /// The challenge header for a nonce and an opaque value.
    pub open spec fn spec_challenge(nonce: Seq<char>, opaque: Seq<char>) -> Seq<char> {
        "Digest realm=\""@ + "administrator"@ + "\", nonce=\""@ + nonce + "\", opaque=\""@ + opaque
            + "\""@
    }

    /// A fresh challenge naming the realm, a fresh nonce and a fresh opaque
    /// value.
    pub fn www_authenticate(&self) -> (r: String)
        ensures
            exists|n: Seq<char>, o: Seq<char>|
                #![auto]
                Self::spec_hashed_id(n) && Self::spec_hashed_id(o) && r@ == Self::spec_challenge(
                    n,
                    o,
                ),
    {
        let realm = self.realm();
        let nonce = self.nonce();
        let opaque = self.opaque();
        let mut s = String::from_str("Digest realm=\"");
        s.append(realm.as_str());
        s.append("\", nonce=\"");
        s.append(nonce.as_str());
        s.append("\", opaque=\"");
        s.append(opaque.as_str());
        s.append("\"");
        proof {
            assert(s@ =~= Self::spec_challenge(nonce@, opaque@));
        }
        s
    }

    /// The response hash the server expects for a nonce: the md5 hex of the
    /// credential hash, the nonce and the request hash, joined by colons.
    pub open spec fn spec_expected_response(
        &self,
        method: Seq<char>,
        uri: Seq<char>,
        nonce: Seq<char>,
    ) -> Seq<char> {
        let a1 = spec_md5_hex(
            self.spec_username() + ":"@ + "administrator"@ + ":"@ + self.spec_password(),
        );
        let a2 = spec_md5_hex(method + ":"@ + uri);
        spec_md5_hex(a1 + ":"@ + nonce + ":"@ + a2)
    }

    /// Whether a digest header authorizes a request: it opens with the
    /// marker, carries a nonce and a response field, and the response equals
    /// the hash the server expects for that nonce.
    pub open spec fn spec_authorized(&self, raw: Seq<char>, method: Seq<char>, uri: Seq<char>) -> bool {
        let nonce = spec_digest_field(raw, "nonce"@);
        let resp = spec_digest_field(raw, "response"@);
        &&& spec_digest_prefix_ok(raw)
        &&& nonce is Some
        &&& resp is Some
        &&& resp->Some_0 == self.spec_expected_response(method, uri, nonce->Some_0)
    }

    /// Checks a digest authorization header against the request: the header
    /// must open with the digest marker, carry a nonce and a response field,
    /// and the response must equal the hash the server expects for that
    /// nonce. Each failure mode reports its own error.
    pub fn verify_digest(&self, raw_digest: &str, request_method: &str, uri: &str) -> (r: Result<
        (),
        AuthorizationError,
    >)
        ensures
            r is Ok <==> self.spec_authorized(raw_digest@, request_method@, uri@),
            ({
                let prefix_ok = spec_digest_prefix_ok(raw_digest@);
                let nonce = spec_digest_field(raw_digest@, "nonce"@);
                let resp = spec_digest_field(raw_digest@, "response"@);
                &&& ((r matches Err(AuthorizationError::InvalidFormat)) <==> !prefix_ok)
                &&& ((r matches Err(AuthorizationError::MissingField { field }) && field@
                    == "nonce"@) <==> (prefix_ok && nonce is None))
                &&& ((r matches Err(AuthorizationError::MissingField { field }) && field@
                    == "response"@) <==> (prefix_ok && nonce is Some && resp is None))
                &&& ((r matches Err(AuthorizationError::IncorrectResponse)) <==> (prefix_ok
                    && nonce is Some && resp is Some && resp->Some_0
                    != self.spec_expected_response(request_method@, uri@, nonce->Some_0)))
            }),
    {
        proof {
            broadcast use vstd::string::group_string_axioms;

            reveal_strlit("nonce");
            reveal_strlit("response");
            assert("nonce"@.len() == 5);
            assert("response"@.len() == 8);
        }
        let cs = str_to_chars(raw_digest);
        let trimmed = trim_space_chars(&cs);
        if !starts_with_digest(&trimmed) {
            return Err(AuthorizationError::InvalidFormat);
        }
        let rest = chars_from(&trimmed, 7);
        proof {
            assert(rest@.skip(0) =~= rest@);
        }
        let fields = split_chars_from(&rest, 0, ',');
        proof {
            assert(spec_views(fields@) =~= spec_digest_fields(raw_digest@));
        }
        let nonce_key = str_to_chars("nonce");
        let nonce_value = match lookup_field(&fields, &nonce_key) {
            Some(v) => v,
            None => {
                return Err(
                    AuthorizationError::MissingField { field: String::from_str("nonce") },
                );
            },
        };
        let response_key = str_to_chars("response");
        let response_value = match lookup_field(&fields, &response_key) {
            Some(v) => v,
            None => {
                return Err(
                    AuthorizationError::MissingField { field: String::from_str("response") },
                );
            },
        };
        proof {
            reveal_strlit(":");
        }
        let mut a1_input = str_to_chars(self.admin_username.as_str());
        a1_input.push(':');
        let mut realm_chars = str_to_chars("administrator");
        a1_input.append(&mut realm_chars);
        a1_input.push(':');
        let mut password_chars = str_to_chars(self.admin_password.as_str());
        a1_input.append(&mut password_chars);
        proof {
            assert(a1_input@ =~= self.spec_username() + ":"@ + "administrator"@ + ":"@
                + self.spec_password());
        }
        let a1 = md5_hex_chars(&a1_input);
        let mut a2_input = str_to_chars(request_method);
        a2_input.push(':');
        let mut uri_chars = str_to_chars(uri);
        a2_input.append(&mut uri_chars);
        proof {
            assert(a2_input@ =~= request_method@ + ":"@ + uri@);
        }
        let a2 = md5_hex_chars(&a2_input);
        let ghost a1_view = a1@;
        let ghost a2_view = a2@;
        let ghost nonce_view = nonce_value@;
        let mut expected_input = a1;
        expected_input.push(':');
        let mut nonce_chars = nonce_value;
        expected_input.append(&mut nonce_chars);
        expected_input.push(':');
        let mut a2_chars = a2;
        expected_input.append(&mut a2_chars);
        proof {
            assert(expected_input@ =~= a1_view + ":"@ + nonce_view + ":"@ + a2_view);
        }
        let expected = md5_hex_chars(&expected_input);
        if chars_eq(&expected, &response_value) {
            Ok(())
        } else {
            Err(AuthorizationError::IncorrectResponse)
        }
    }
}

} // verus!
