//! Credentials: a username and password stored together as one secret, with
//! metadata that lets them be listed without decrypting them.

use crate::json::{
    closing_quote, json_escape, json_string, json_string_literal, lemma_closing_quote_of_escape,
    lemma_json_escape_injective,
};
use crate::text::{contains_seq, contains_str, is_blank, is_blank_spec};
use vstd::prelude::*;

verus! {

/// The type tag that marks a secret as a credential.
pub const CREDENTIAL_TYPE: &'static str = "credential";

/// What `str::to_lowercase` returns for `s`: its Unicode lowercase mapping.
pub uninterp spec fn lowercase(s: Seq<char>) -> Seq<char>;

/// Calls `str::to_lowercase`, whose result depends on `s` alone.
#[verifier::external_body]
fn to_lowercase(s: &str) -> (res: String)
    ensures
        res@ == lowercase(s@),
{
    s.to_lowercase()
}

/// Why a credential could not be stored.
#[derive(Debug, Clone, Copy, PartialEq, Eq, Structural)]
pub enum CredentialError {
    /// The username holds only whitespace.
    EmptyUsername,
    /// The password holds only whitespace.
    EmptyPassword,
}

/// The two JSON texts that store a credential: the secret value, and the
/// metadata kept in the clear beside it.
#[derive(Debug, Clone)]
pub struct CredentialPayloads {
    pub value: String,
    pub metadata: String,
}

/// The secret value of a credential, given the JSON literals of its
/// username and password: `{"type":"credential","username":..,"password":..}`.
pub open spec fn credential_value_json(username_json: Seq<char>, password_json: Seq<char>) -> Seq<
    char,
> {
    "{\"type\":\"credential\",\"username\":"@ + username_json + ",\"password\":"@ + password_json
        + "}"@
}

/// The metadata of a credential, given the JSON literal of its username:
/// `{"type":"credential","username":..}`.
pub open spec fn credential_metadata_json(username_json: Seq<char>) -> Seq<char> {
    "{\"type\":\"credential\",\"username\":"@ + username_json + "}"@
}

/// The escaped username read from the front of `tail`, the text that follows
/// the opening quote of a payload's username literal.
proof fn lemma_read_escaped_front(u1: Seq<char>, u2: Seq<char>, t1: Seq<char>, t2: Seq<char>)
    requires
        json_escape(u1) + seq!['"'] + t1 == json_escape(u2) + seq!['"'] + t2,
    ensures
        u1 == u2,
        t1 == t2,
{
    let x = json_escape(u1) + seq!['"'] + t1;
    lemma_closing_quote_of_escape(u1, t1);
    lemma_closing_quote_of_escape(u2, t2);
    let n = json_escape(u1).len() as int;
    assert(json_escape(u1) =~= x.take(n));
    assert(json_escape(u2) =~= x.take(n));
    lemma_json_escape_injective(u1, u2);
    assert(t1 =~= x.subrange(n + 1, x.len() as int));
    assert(t2 =~= x.subrange(n + 1, x.len() as int));
}

/// A credential's value payload determines its username and password:
/// reading the two literals back gives what was written.
pub proof fn lemma_credential_value_determines_fields(
    u1: Seq<char>,
    p1: Seq<char>,
    u2: Seq<char>,
    p2: Seq<char>,
)
    requires
        credential_value_json(json_string_literal(u1), json_string_literal(p1))
            == credential_value_json(json_string_literal(u2), json_string_literal(p2)),
    ensures
        u1 == u2,
        p1 == p2,
{
    let prefix = "{\"type\":\"credential\",\"username\":"@;
    let middle = ",\"password\":"@;
    let end = "}"@;
    let v = credential_value_json(json_string_literal(u1), json_string_literal(p1));
    let l: int = prefix.len() + 1int;
    let t1 = middle + json_string_literal(p1) + end;
    let t2 = middle + json_string_literal(p2) + end;
    assert(v.subrange(l, v.len() as int) =~= json_escape(u1) + seq!['"'] + t1);
    assert(v.subrange(l, v.len() as int) =~= json_escape(u2) + seq!['"'] + t2);
    lemma_read_escaped_front(u1, u2, t1, t2);
    let m: int = middle.len() + 1int;
    assert(t1.subrange(m, t1.len() as int) =~= json_escape(p1) + seq!['"'] + end);
    assert(t2.subrange(m, t2.len() as int) =~= json_escape(p2) + seq!['"'] + end);
    lemma_read_escaped_front(p1, p2, end, end);
}

/// A credential's metadata payload determines its username.
pub proof fn lemma_credential_metadata_determines_username(u1: Seq<char>, u2: Seq<char>)
    requires
        credential_metadata_json(json_string_literal(u1)) == credential_metadata_json(
            json_string_literal(u2),
        ),
    ensures
        u1 == u2,
{
    let prefix = "{\"type\":\"credential\",\"username\":"@;
    let end = "}"@;
    let v = credential_metadata_json(json_string_literal(u1));
    let l: int = prefix.len() + 1int;
    assert(v.subrange(l, v.len() as int) =~= json_escape(u1) + seq!['"'] + end);
    assert(v.subrange(l, v.len() as int) =~= json_escape(u2) + seq!['"'] + end);
    lemma_read_escaped_front(u1, u2, end, end);
}

/// Frames the secret value of a credential around the JSON literals of its
/// username and password, fields in the order type, username, password.
pub fn credential_value_payload(username_json: &str, password_json: &str) -> (res: String)
    ensures
        res@ == credential_value_json(username_json@, password_json@),
{
    let mut res = "{\"type\":\"credential\",\"username\":".to_string();
    res.append(username_json);
    res.append(",\"password\":");
    res.append(password_json);
    res.append("}");
    res
}

/// Frames the metadata of a credential around the JSON literal of its
/// username, fields in the order type, username.
pub fn credential_metadata_payload(username_json: &str) -> (res: String)
    ensures
        res@ == credential_metadata_json(username_json@),
{
    let mut res = "{\"type\":\"credential\",\"username\":".to_string();
    res.append(username_json);
    res.append("}");
    res
}

/// Refuses a username that holds only whitespace.
pub fn check_username(username: &str) -> (res: Result<(), CredentialError>)
    ensures
        is_blank_spec(username@) ==> res == Err::<(), CredentialError>(
            CredentialError::EmptyUsername,
        ),
        !is_blank_spec(username@) ==> res is Ok,
{
    if is_blank(username) {
        Err(CredentialError::EmptyUsername)
    } else {
        Ok(())
    }
}

/// The payloads that store the credential `username`, `password`. A blank
/// username is refused first, then a blank password; otherwise the payloads
/// are the credential's value and metadata written around the JSON literals
/// of the username and password.
pub fn prepare_credential(username: &str, password: &str) -> (res: Result<
    CredentialPayloads,
    CredentialError,
>)
    ensures
        is_blank_spec(username@) ==> res == Err::<CredentialPayloads, CredentialError>(
            CredentialError::EmptyUsername,
        ),
        !is_blank_spec(username@) && is_blank_spec(password@) ==> res == Err::<
            CredentialPayloads,
            CredentialError,
        >(CredentialError::EmptyPassword),
        !is_blank_spec(username@) && !is_blank_spec(password@) ==> (res matches Ok(payloads)
            && payloads.value@ == credential_value_json(
            json_string_literal(username@),
            json_string_literal(password@),
        ) && payloads.metadata@ == credential_metadata_json(json_string_literal(username@))),
{
    match check_username(username) {
        Ok(()) => {},
        Err(e) => return Err(e),
    }
    if is_blank(password) {
        return Err(CredentialError::EmptyPassword);
    }
    let username_json = match json_string(username) {
        Ok(text) => text,
        Err(_) => return unreached(),
    };
    let password_json = match json_string(password) {
        Ok(text) => text,
        Err(_) => return unreached(),
    };
    let value = credential_value_payload(username_json.as_str(), password_json.as_str());
    let metadata = credential_metadata_payload(username_json.as_str());
    Ok(CredentialPayloads { value, metadata })
}

/// The metadata of a stored secret, as far as it describes a credential.
#[derive(Debug, Clone)]
pub struct CredentialMetadata {
    pub credential_type: String,
    pub username: String,
}

/// A secret as the server lists it, with its metadata already read as
/// credential metadata (`None` where it has none, or none of that shape).
#[derive(Debug, Clone)]
pub struct SecretSummary {
    pub key: String,
    pub version: i32,
    pub expires_at: Option<i64>,
    pub metadata: Option<CredentialMetadata>,
}

/// A credential in a listing.
#[derive(Debug, Clone)]
pub struct CredentialEntry {
    pub key: String,
    pub version: i32,
    pub username: String,
    pub expires_at: Option<i64>,
}

/// Whether `secret` is listed under the username filter `filter`: it is a
/// credential, and, where there is a filter, its lowercased username contains
/// the lowercased filter.
pub open spec fn is_listed(secret: SecretSummary, filter: Option<Seq<char>>) -> bool {
    match secret.metadata {
        Some(metadata) => {
            &&& metadata.credential_type@ == CREDENTIAL_TYPE@
            &&& match filter {
                Some(f) => contains_seq(lowercase(metadata.username@), lowercase(f)),
                None => true,
            }
        },
        None => false,
    }
}

/// The entry that lists `secret`, which must carry metadata.
pub open spec fn entry_of(secret: SecretSummary) -> CredentialEntry {
    CredentialEntry {
        key: secret.key,
        version: secret.version,
        username: secret.metadata->Some_0.username,
        expires_at: secret.expires_at,
    }
}

/// The view of an optional string.
pub open spec fn option_view(s: Option<String>) -> Option<Seq<char>> {
    match s {
        Some(s) => Some(s@),
        None => None,
    }
}

/// The credentials among `secrets`, in their order, each as an entry; with a
/// filter, only those whose username contains it, ignoring case.
pub fn list_credential_entries(secrets: &Vec<SecretSummary>, username_filter: Option<String>) -> (res:
    Vec<CredentialEntry>)
    ensures
        res@ == secrets@.filter(|s: SecretSummary| is_listed(s, option_view(username_filter))).map_values(
            |s: SecretSummary| entry_of(s),
        ),
        forall|i: int|
            0 <= i < res@.len() ==> match username_filter {
                Some(f) => contains_seq(lowercase((#[trigger] res@[i]).username@), lowercase(f@)),
                None => true,
            },
        forall|i: int|
            0 <= i < res@.len() ==> exists|j: int|
                0 <= j < secrets@.len() && (#[trigger] res@[i]) == entry_of(secrets@[j])
                    && secrets@[j].metadata is Some
                    && secrets@[j].metadata->Some_0.credential_type@ == "credential"@,
{
    let ghost filter = option_view(username_filter);
    let ghost pred = |s: SecretSummary| is_listed(s, filter);
    let normalized: Option<String> = match &username_filter {
        Some(f) => Some(to_lowercase(f.as_str())),
        None => None,
    };
    let credential_type = CREDENTIAL_TYPE.to_string();
    let mut res: Vec<CredentialEntry> = Vec::new();
    let mut i: usize = 0;
    while i < secrets.len()
        invariant
            i <= secrets@.len(),
            credential_type@ == CREDENTIAL_TYPE@,
            filter == option_view(username_filter),
            pred == (|s: SecretSummary| is_listed(s, filter)),
            match filter {
                Some(f) => normalized matches Some(n) && n@ == lowercase(f),
                None => normalized is None,
            },
            res@ == secrets@.take(i as int).filter(pred).map_values(|s: SecretSummary| entry_of(s)),
        decreases secrets@.len() - i,
    {
        let secret = &secrets[i];
        assert(secrets@.take(i + 1) =~= secrets@.take(i as int).push(*secret));
        proof {
            secrets@.take(i as int).lemma_filter_push(*secret, pred);
        }
        let listed = match &secret.metadata {
            Some(metadata) => {
                if metadata.credential_type == credential_type {
                    match &normalized {
                        Some(n) => {
                            let lowered = to_lowercase(metadata.username.as_str());
                            contains_str(lowered.as_str(), n.as_str())
                        },
                        None => true,
                    }
                } else {
                    false
                }
            },
            None => false,
        };
        assert(listed == pred(*secret));
        if listed {
            let entry = CredentialEntry {
                key: secret.key.clone(),
                version: secret.version,
                username: secret.metadata.as_ref().unwrap().username.clone(),
                expires_at: secret.expires_at,
            };
            assert(entry == entry_of(*secret));
            res.push(entry);
            assert(res@ =~= secrets@.take(i + 1).filter(pred).map_values(
                |s: SecretSummary| entry_of(s),
            ));
        } else {
            assert(res@ =~= secrets@.take(i + 1).filter(pred).map_values(
                |s: SecretSummary| entry_of(s),
            ));
        }
        i = i + 1;
    }
    assert(secrets@.take(secrets@.len() as int) =~= secrets@);
    proof {
        let kept = secrets@.filter(pred);
        assert forall|i: int| 0 <= i < res@.len() implies match username_filter {
            Some(f) => contains_seq(lowercase((#[trigger] res@[i]).username@), lowercase(f@)),
            None => true,
        } && exists|j: int|
            0 <= j < secrets@.len() && res@[i] == entry_of(secrets@[j])
                && secrets@[j].metadata is Some
                    && secrets@[j].metadata->Some_0.credential_type@ == "credential"@ by {
            secrets@.lemma_filter_pred(pred, i);
            assert(pred(kept[i]));
            assert(res@[i] == entry_of(kept[i]));
            assert(kept.contains(kept[i]));
            secrets@.lemma_filter_contains_rev(pred, kept[i]);
            let j = choose|j: int| 0 <= j < secrets@.len() && secrets@[j] == kept[i];
            assert(secrets@[j] == kept[i]);
        }
    }
    res
}

/// Without a filter a secret is listed exactly when it carries credential
/// metadata; under a filter, exactly when it is listed without one and its
/// username, lowercased, contains the lowercased filter. Nothing else of the
/// secret, its key included, decides it.
pub proof fn lemma_listing_decided_by_type_and_username(secret: SecretSummary, filter: Seq<char>)
    ensures
        is_listed(secret, None) <==> (secret.metadata matches Some(m) && m.credential_type@
            == "credential"@),
        is_listed(secret, Some(filter)) <==> (is_listed(secret, None) && contains_seq(
            lowercase(secret.metadata->Some_0.username@),
            lowercase(filter),
        )),
{
}

/// A listing under a username filter shows only secrets that the unfiltered
/// listing shows too.
pub proof fn lemma_filtered_listing_within_unfiltered(secret: SecretSummary, filter: Seq<char>)
    requires
        is_listed(secret, Some(filter)),
    ensures
        is_listed(secret, None),
{
}

} // verus!
