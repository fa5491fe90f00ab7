//! DID documents, as far as they name keys to encrypt to.
use vstd::prelude::*;
use vstd::slice::slice_to_vec;

use crate::codec::base58_decode;
use crate::crypto::KEY_LENGTH;
use crate::error::Error;
use crate::keys::{decode_public_key_multibase, Params, JWK};

verus! {

/// How a document gives a key.
#[derive(Clone, Debug, PartialEq, Eq)]
pub enum VerificationMethod {
    /// The key itself.
    Embedded(VerificationMethodMap),
    /// A reference to a key that is given elsewhere.
    Reference,
}

/// The forms of a public key in a verification method.
#[derive(Clone, Debug, PartialEq, Eq)]
pub struct VerificationMethodMap {
    pub public_key_base58: Option<String>,
    pub public_key_jwk: Option<JWK>,
    /// The `publicKeyMultibase` property, where it is a string.
    pub public_key_multibase: Option<String>,
}

/// A key for key agreement.
#[derive(Clone, Debug, PartialEq, Eq)]
pub struct KeyAgreement {
    /// The id of the key, as the holder's DID makes it absolute.
    pub kid: String,
    pub method: VerificationMethod,
}

/// A DID document.
#[derive(Clone, Debug, PartialEq, Eq)]
pub struct DidDocument {
    pub key_agreement: Option<Vec<KeyAgreement>>,
}

/// What the resolution of a DID gives.
#[derive(Clone, Debug, PartialEq, Eq)]
pub struct Resolution {
    /// Whether the metadata of the resolution tell an error.
    pub failed: bool,
    pub document: Option<DidDocument>,
}

/// A key to encrypt to.
#[derive(Clone, Debug, PartialEq, Eq)]
pub struct RecipientKey {
    pub kid: String,
    /// An X25519 public key.
    pub public_key: Vec<u8>,
}

/// A key to encrypt to, apart from how it is stored.
pub struct KeyView {
    pub kid: Seq<char>,
    pub public_key: Seq<u8>,
}

impl View for RecipientKey {
    type V = KeyView;

    open spec fn view(&self) -> KeyView {
        KeyView { kid: self.kid@, public_key: self.public_key@ }
    }
}

/// The bytes of the public key of a verification method: the first of its forms counts, even
/// if it cannot be read.
pub open spec fn key_bytes(method: VerificationMethod) -> Option<Seq<u8>> {
    match method {
        VerificationMethod::Embedded(map) => if let Some(base58) = map.public_key_base58 {
            crate::codec::base58_decoding(base58@)
        } else if let Some(jwk) = map.public_key_jwk {
            match jwk.params {
                Params::OKP(params) => if params.curve@ == "X25519"@ {
                    Some(params.public_key@)
                } else {
                    None
                },
                Params::Other => None,
            }
        } else if let Some(multibase) = map.public_key_multibase {
            crate::keys::multibase_key(multibase@)
        } else {
            None
        },
        VerificationMethod::Reference => None,
    }
}

/// Bytes that are of the length of an X25519 public key.
pub open spec fn key_of(bytes: Option<Seq<u8>>) -> Option<Seq<u8>> {
    match bytes {
        Some(key) => if key.len() == KEY_LENGTH {
            Some(key)
        } else {
            None
        },
        None => None,
    }
}

/// The keys among those of a document that can be encrypted to, in their order.
pub open spec fn usable_keys(agreements: Seq<KeyAgreement>) -> Seq<KeyView>
    decreases agreements.len(),
{
    if agreements.len() == 0 {
        Seq::empty()
    } else {
        let last = agreements[agreements.len() - 1];
        let before = usable_keys(agreements.drop_last());
        match key_of(key_bytes(last.method)) {
            Some(key) => before.push(KeyView { kid: last.kid@, public_key: key }),
            None => before,
        }
    }
}

/// Whether a resolution failed, or gave a document that names keys for key agreement.
pub open spec fn names_keys(resolution: Resolution) -> bool {
    resolution.failed || match resolution.document {
        Some(document) => document.key_agreement is Some,
        None => false,
    }
}

/// The keys to encrypt to that a resolution gives, one that failed gives none.
pub open spec fn resolved_keys(resolution: Resolution) -> Seq<KeyView> {
    if resolution.failed {
        Seq::empty()
    } else {
        usable_keys(resolution.document->Some_0.key_agreement->Some_0@)
    }
}

/// Whether every resolution failed, or gave a document that names keys for key agreement.
pub open spec fn all_name_keys(resolutions: Seq<Resolution>) -> bool {
    forall|i: int| 0 <= i < resolutions.len() ==> names_keys(#[trigger] resolutions[i])
}

/// The keys to encrypt to that resolutions give, in their order.
pub open spec fn all_keys(resolutions: Seq<Resolution>) -> Seq<KeyView>
    decreases resolutions.len(),
{
    if resolutions.len() == 0 {
        Seq::empty()
    } else {
        all_keys(resolutions.drop_last()) + resolved_keys(resolutions[resolutions.len() - 1])
    }
}

/// The keys of more resolutions are those of the ones and those of the others, one after the
/// other; nothing is left out that occurs twice.
pub proof fn law_keys_of_more_resolutions(a: Seq<Resolution>, b: Seq<Resolution>)
    ensures
        all_keys(a + b) == all_keys(a) + all_keys(b),
        all_name_keys(a + b) <==> all_name_keys(a) && all_name_keys(b),
    decreases b.len(),
{
    let all = a + b;
    if b.len() == 0 {
        assert(all =~= a);
    } else {
        law_keys_of_more_resolutions(a, b.drop_last());
        assert(all.drop_last() =~= a + b.drop_last());
    }
    if all_name_keys(all) {
        assert forall|i: int| 0 <= i < b.len() implies names_keys(#[trigger] b[i]) by {
            assert(b[i] == all[a.len() + i]);
        }
    }
}

/// A resolution that failed adds nothing and stops nothing, wherever it stands.
pub proof fn law_failed_resolution_adds_nothing(
    before: Seq<Resolution>,
    failed: Resolution,
    after: Seq<Resolution>,
)
    requires
        failed.failed,
    ensures
        all_keys(before + seq![failed] + after) == all_keys(before + after),
        all_name_keys(before + seq![failed] + after) <==> all_name_keys(before + after),
{
    let one = seq![failed];
    law_keys_of_more_resolutions(before + one, after);
    law_keys_of_more_resolutions(before, one);
    law_keys_of_more_resolutions(before, after);
    reveal_with_fuel(all_keys, 2);
}

/// A key that cannot be read as an X25519 key leaves the keys as they are.
pub proof fn law_unusable_key_adds_nothing(before: Seq<KeyAgreement>, unusable: KeyAgreement)
    requires
        key_of(key_bytes(unusable.method)) is None,
    ensures
        usable_keys(before.push(unusable)) == usable_keys(before),
{
    assert(before.push(unusable).drop_last() =~= before);
}

/// What keys are, apart from how they are stored.
pub open spec fn key_views(keys: Seq<RecipientKey>) -> Seq<KeyView> {
    keys.map_values(|key: RecipientKey| key@)
}

/// Whether every key has the length of an X25519 public key.
pub open spec fn keys_ok(keys: Seq<KeyView>) -> bool {
    forall|i: int| 0 <= i < keys.len() ==> (#[trigger] keys[i]).public_key.len() == KEY_LENGTH
}

/// Takes bytes for a key that have the length of one.
pub fn accept_key(bytes: Option<Vec<u8>>) -> (res: Option<Vec<u8>>)
    ensures
        match (bytes, res) {
            (Some(given), Some(key)) => key_of(Some(given@)) == Some(key@),
            (Some(given), None) => key_of(Some(given@)) is None,
            (None, key) => key is None,
        },
{
    match bytes {
        Some(key) => if key.len() == KEY_LENGTH {
            Some(key)
        } else {
            None
        },
        None => None,
    }
}

/// The X25519 public key of a verification method.
pub fn receiver_public_key(method: &VerificationMethod) -> (res: Option<Vec<u8>>)
    ensures
        match res {
            Some(key) => key_of(key_bytes(*method)) == Some(key@) && key@.len() == 32,
            None => key_of(key_bytes(*method)) is None,
        },
        match *method {
            VerificationMethod::Embedded(map) => match (map.public_key_base58, map.public_key_jwk) {
                (None, Some(jwk)) => match jwk.params {
                    Params::OKP(params) => params.curve@ == "X25519"@ && params.public_key@.len()
                        == 32 ==> (res matches Some(key) && key@ == params.public_key@),
                    Params::Other => res is None,
                },
                _ => true,
            },
            VerificationMethod::Reference => res is None,
        },
{
    let bytes: Option<Vec<u8>> = match method {
        VerificationMethod::Embedded(map) => {
            // 1) publicKeyBase58
            if let Some(base58) = &map.public_key_base58 {
                base58_decode(base58.as_str())
            // 2) publicKeyJwk with crv X25519
            } else if let Some(jwk) = &map.public_key_jwk {
                match &jwk.params {
                    Params::OKP(params) => if params.curve == "X25519".to_string() {
                        Some(slice_to_vec(params.public_key.as_slice()))
                    } else {
                        None
                    },
                    Params::Other => None,
                }
            // 3) publicKeyMultibase
            } else if let Some(multibase) = &map.public_key_multibase {
                decode_public_key_multibase(multibase.as_str())
            } else {
                None
            }
        },
        VerificationMethod::Reference => None,
    };
    accept_key(bytes)
}

/// The keys to encrypt to that a resolution gives.
pub fn recipient_keys(resolution: &Resolution) -> (res: Result<Vec<RecipientKey>, Error>)
    ensures
        match res {
            Ok(keys) => names_keys(*resolution) && key_views(keys@) == resolved_keys(*resolution)
                && keys_ok(key_views(keys@)),
            Err(e) => e == Error::UnableToGetVerificationMethod && !names_keys(*resolution),
        },
{
    let mut keys: Vec<RecipientKey> = Vec::new();
    if resolution.failed {
        return Ok(keys);
    }
    let agreements = match &resolution.document {
        Some(document) => match &document.key_agreement {
            Some(agreements) => agreements,
            None => return Err(Error::UnableToGetVerificationMethod),
        },
        None => return Err(Error::UnableToGetVerificationMethod),
    };
    for i in 0..agreements.len()
        invariant
            key_views(keys@) == usable_keys(agreements@.take(i as int)),
            keys_ok(key_views(keys@)),
    {
        assert(agreements@.take(i + 1).drop_last() =~= agreements@.take(i as int));
        if let Some(public_key) = receiver_public_key(&agreements[i].method) {
            let ghost before = keys@;
            let key = RecipientKey { kid: agreements[i].kid.clone(), public_key };
            keys.push(key);
            assert(key_views(keys@) =~= key_views(before).push(key@));
        }
    }
    assert(agreements@.take(agreements@.len() as int) =~= agreements@);
    Ok(keys)
}

/// The keys to encrypt to that resolutions give.
pub fn collect_keys(resolutions: &[Resolution]) -> (res: Result<Vec<RecipientKey>, Error>)
    ensures
        match res {
            Ok(keys) => all_name_keys(resolutions@) && key_views(keys@) == all_keys(resolutions@)
                && keys_ok(key_views(keys@)),
            Err(e) => e == Error::UnableToGetVerificationMethod && !all_name_keys(resolutions@),
        },
{
    let mut keys: Vec<RecipientKey> = Vec::new();
    for i in 0..resolutions.len()
        invariant
            forall|k: int| 0 <= k < i ==> names_keys(#[trigger] resolutions@[k]),
            key_views(keys@) == all_keys(resolutions@.take(i as int)),
            keys_ok(key_views(keys@)),
    {
        assert(resolutions@.take(i + 1).drop_last() =~= resolutions@.take(i as int));
        match recipient_keys(&resolutions[i]) {
            Ok(mut more) => {
                let ghost before = keys@;
                let ghost added = more@;
                keys.append(&mut more);
                assert(key_views(keys@) =~= key_views(before) + key_views(added));
            },
            Err(e) => return Err(e),
        }
    }
    assert(resolutions@.take(resolutions@.len() as int) =~= resolutions@);
    Ok(keys)
}

/// A key in base58 is the bytes that the text stands for, where they are 32, whatever other
/// forms stand beside it.
pub proof fn law_key_in_base58(map: VerificationMethodMap, text: String, bytes: Seq<u8>)
    requires
        map.public_key_base58 == Some(text),
    ensures
        crate::codec::base58_decoding(text@) == Some(bytes) && bytes.len() == 32 ==> key_of(
            key_bytes(VerificationMethod::Embedded(map)),
        ) == Some(bytes),
        crate::codec::base58_decoding(text@) == Some(bytes) && bytes.len() != 32 ==> key_of(
            key_bytes(VerificationMethod::Embedded(map)),
        ) is None,
        crate::codec::base58_decoding(text@) is None ==> key_of(
            key_bytes(VerificationMethod::Embedded(map)),
        ) is None,
{
}

/// A key as a JSON Web Key is the public part of an octet key pair on X25519, byte for byte,
/// where it has 32 bytes. Another key type or curve, or another length, gives no key, whatever
/// stands beside it.
pub proof fn law_key_as_jwk(map: VerificationMethodMap, jwk: JWK)
    requires
        map.public_key_base58 is None,
        map.public_key_jwk == Some(jwk),
    ensures
        jwk.params is Other ==> key_of(key_bytes(VerificationMethod::Embedded(map))) is None,
        jwk.params matches Params::OKP(params) ==> match key_of(
            key_bytes(VerificationMethod::Embedded(map)),
        ) {
            Some(key) => params.curve@ == "X25519"@ && key.len() == 32
                && params.public_key@.len() == 32 && forall|i: int|
                0 <= i < 32 ==> #[trigger] key[i] == params.public_key@[i],
            None => params.curve@ != "X25519"@ || params.public_key@.len() != 32,
        },
{
}

/// A key in multibase counts where no other form is there: behind a `z`, the base58 text of the
/// code of X25519 keys and the 32 bytes of the key.
pub proof fn law_key_in_multibase(
    map: VerificationMethodMap,
    text: String,
    base58: Seq<char>,
    key: Seq<u8>,
)
    requires
        map.public_key_base58 is None,
        map.public_key_jwk is None,
        map.public_key_multibase == Some(text),
    ensures
        text@ == seq!['z'] + base58 && crate::codec::base58_decoding(base58) == Some(
            seq![0xecu8, 0x01u8] + key,
        ) ==> key_of(key_bytes(VerificationMethod::Embedded(map))) == if key.len() == 32 {
            Some(key)
        } else {
            None
        },
        text@.len() == 0 || text@[0] != 'z' ==> key_of(
            key_bytes(VerificationMethod::Embedded(map)),
        ) is None,
        key_of(key_bytes(VerificationMethod::Embedded(map))) matches Some(found) ==> {
            &&& text@.len() > 0 && text@[0] == 'z'
            &&& crate::codec::base58_decoding(text@.skip(1)) matches Some(bytes) && bytes.len()
                > 32 && found == bytes.skip(bytes.len() - 32)
        },
{
    crate::keys::law_multibase_is_base58_behind_a_z(base58, seq![0xecu8, 0x01u8] + key);
    crate::keys::law_bytes_behind_the_code_are_the_key(key);
    if key_of(key_bytes(VerificationMethod::Embedded(map))) is Some {
        let rest = text@.skip(1);
        assert(text@ =~= seq!['z'] + rest);
        let bytes = crate::codec::base58_decoding(rest)->Some_0;
        crate::keys::law_multibase_is_base58_behind_a_z(rest, bytes);
        crate::keys::law_key_is_the_end_of_the_bytes(bytes);
    }
}

/// Where no form of a key is there, and where a key is given elsewhere, there is none.
pub proof fn law_no_key_without_a_form(map: VerificationMethodMap)
    requires
        map.public_key_base58 is None,
        map.public_key_jwk is None,
        map.public_key_multibase is None,
    ensures
        key_of(key_bytes(VerificationMethod::Embedded(map))) is None,
        key_of(key_bytes(VerificationMethod::Reference)) is None,
{
}

/// Bytes are taken for a key as they are, and just where they are 32.
pub proof fn law_keys_are_any_32_bytes(bytes: Seq<u8>)
    ensures
        bytes.len() == 32 ==> key_of(Some(bytes)) == Some(bytes),
        bytes.len() != 32 ==> key_of(Some(bytes)) is None,
        key_of(None) is None,
{
}

/// One more key at the end of a document's adds its own id and bytes at the end, and no keys give
/// none.
pub proof fn law_one_more_key(before: Seq<KeyAgreement>, last: KeyAgreement, key: Seq<u8>)
    requires
        key_of(key_bytes(last.method)) == Some(key),
    ensures
        usable_keys(Seq::empty()) == Seq::<KeyView>::empty(),
        ({
            let after = usable_keys(before.push(last));
            let count = usable_keys(before).len();
            &&& after.len() == count + 1
            &&& after.take(count as int) == usable_keys(before)
            &&& after[count as int].kid == last.kid@
            &&& after[count as int].public_key == key
        }),
{
    assert(before.push(last).drop_last() =~= before);
    let after = usable_keys(before.push(last));
    assert(after.take(usable_keys(before).len() as int) =~= usable_keys(before));
}

/// Whether `places` are the places of the readable ones among a document's keys, in order.
pub open spec fn are_readable_places(agreements: Seq<KeyAgreement>, places: Seq<int>) -> bool {
    &&& forall|i: int|
        0 <= i < places.len() ==> 0 <= #[trigger] places[i] < agreements.len() && key_of(
            key_bytes(agreements[places[i]].method),
        ) is Some
    &&& forall|i: int, j: int|
        0 <= i < j < places.len() ==> #[trigger] places[i] < #[trigger] places[j]
    &&& forall|k: int|
        0 <= k < agreements.len() && key_of(key_bytes((#[trigger] agreements[k]).method)) is Some
            ==> places.contains(k)
}

/// Every key to encrypt to is that of an entry of the document, with the entry's own id, in the
/// order of the entries; and every entry with a readable key is among them.
pub proof fn law_keys_come_from_entries(agreements: Seq<KeyAgreement>)
    ensures
        exists|places: Seq<int>|
            {
                &&& #[trigger] are_readable_places(agreements, places)
                &&& places.len() == usable_keys(agreements).len()
                &&& forall|i: int|
                    0 <= i < places.len() ==> usable_keys(agreements)[i].kid
                        == agreements[#[trigger] places[i]].kid@ && Some(
                        usable_keys(agreements)[i].public_key,
                    ) == key_of(key_bytes(agreements[places[i]].method))
            },
    decreases agreements.len(),
{
    let keys = usable_keys(agreements);
    if agreements.len() == 0 {
        assert(are_readable_places(agreements, Seq::empty()));
    } else {
        let before = agreements.drop_last();
        let end = agreements.len() - 1;
        law_keys_come_from_entries(before);
        let earlier = choose|places: Seq<int>|
            {
                &&& #[trigger] are_readable_places(before, places)
                &&& places.len() == usable_keys(before).len()
                &&& forall|i: int|
                    0 <= i < places.len() ==> usable_keys(before)[i].kid == before[
                        #[trigger] places[i]].kid@ && Some(usable_keys(before)[i].public_key)
                        == key_of(key_bytes(before[places[i]].method))
            };
        let readable = key_of(key_bytes(agreements[end].method)) is Some;
        let places = if readable {
            earlier.push(end)
        } else {
            earlier
        };
        assert forall|k: int|
            0 <= k < agreements.len() && key_of(
                key_bytes((#[trigger] agreements[k]).method),
            ) is Some implies places.contains(k) by {
            if k < end {
                assert(before[k] == agreements[k]);
                let i = earlier.index_of(k);
                assert(places[i] == k);
            } else {
                assert(places[places.len() - 1] == k);
            }
        }
        assert forall|i: int| 0 <= i < places.len() implies 0 <= #[trigger] places[i]
            < agreements.len() && key_of(key_bytes(agreements[places[i]].method)) is Some by {
            if i < earlier.len() {
                assert(places[i] == earlier[i]);
                assert(before[earlier[i]] == agreements[earlier[i]]);
            }
        }
        assert forall|i: int, j: int| 0 <= i < j < places.len() implies #[trigger] places[i]
            < #[trigger] places[j] by {
            assert(places[i] == earlier[i]);
            if j < earlier.len() {
                assert(places[j] == earlier[j]);
            }
        }
        assert(are_readable_places(agreements, places));
        assert forall|i: int| 0 <= i < places.len() implies keys[i].kid == agreements[
            #[trigger] places[i]].kid@ && Some(keys[i].public_key) == key_of(
            key_bytes(agreements[places[i]].method),
        ) by {
            if i < earlier.len() {
                assert(places[i] == earlier[i]);
                assert(before[earlier[i]] == agreements[earlier[i]]);
                assert(keys[i] == usable_keys(before)[i]);
            }
        }
    }
}

/// One resolution gives the keys of its document, or none where it failed; it is fit for use
/// just where it failed or its document names keys.
pub proof fn law_keys_of_one_resolution(
    resolution: Resolution,
    document: DidDocument,
    agreements: Vec<KeyAgreement>,
)
    ensures
        resolution.failed ==> all_keys(seq![resolution]) == Seq::<KeyView>::empty()
            && all_name_keys(seq![resolution]),
        !resolution.failed && resolution.document == Some(document) && document.key_agreement
            == Some(agreements) ==> all_keys(seq![resolution]) == usable_keys(agreements@)
            && all_name_keys(seq![resolution]),
        !resolution.failed && resolution.document is None ==> !all_name_keys(seq![resolution]),
        !resolution.failed && resolution.document == Some(document) && document.key_agreement
            is None ==> !all_name_keys(seq![resolution]),
        all_keys(Seq::empty()) == Seq::<KeyView>::empty(),
        all_name_keys(Seq::empty()),
{
    reveal_with_fuel(all_keys, 2);
    let one = seq![resolution];
    assert(one.drop_last() =~= Seq::empty());
    assert(one[0] == resolution);
    assert(all_keys(one) =~= resolved_keys(resolution));
    assert(all_name_keys(one) <==> names_keys(one[0]));
}

/// What is said of keys is said of their ids and bytes as they are stored.
pub proof fn law_views_of_keys(keys: Seq<RecipientKey>, i: int)
    requires
        0 <= i < keys.len(),
    ensures
        keys[i]@.kid == keys[i].kid@,
        keys[i]@.public_key == keys[i].public_key@,
        key_views(keys).len() == keys.len(),
        key_views(keys)[i].kid == keys[i].kid@,
        key_views(keys)[i].public_key == keys[i].public_key@,
{
}

} // verus!
