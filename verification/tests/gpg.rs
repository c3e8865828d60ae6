use pgp::armor::{self, BlockType};
use pgp::composed::{
    ArmorOptions, DetachedSignature, EncryptionCaps, KeyType, SecretKeyParamsBuilder,
    SignedPublicKey, SubkeyParamsBuilder,
};
use pgp::crypto::hash::HashAlgorithm;
use pgp::ser::Serialize;
use pgp::types::Password;
use proto_core::checksum::ProtoChecksumError;
use proto_core::gpg::{split_keyring, verify_gpg_checksum, KeyringShape};
use rand::{rngs::StdRng, SeedableRng};

const CONTENTS: &[u8] = b"proto gpg verification test";
const PUBLIC_KEY_ARMOR_BEGIN: &str = "-----BEGIN PGP PUBLIC KEY BLOCK-----";
const PUBLIC_KEY_ARMOR_END: &str = "-----END PGP PUBLIC KEY BLOCK-----";

fn armor_public_key(public_key: &SignedPublicKey) -> String {
    public_key.to_armored_string(ArmorOptions::default()).unwrap()
}

fn create_key_and_signature(seed: u64) -> (SignedPublicKey, DetachedSignature) {
    let mut signing_subkey = SubkeyParamsBuilder::default();
    signing_subkey
        .key_type(KeyType::Ed25519Legacy)
        .can_sign(true)
        .can_encrypt(EncryptionCaps::None)
        .can_authenticate(false);

    let mut params = SecretKeyParamsBuilder::default();
    params
        .key_type(KeyType::Ed25519Legacy)
        .can_certify(true)
        .can_sign(false)
        .can_encrypt(EncryptionCaps::None)
        .primary_user_id("Proto Test <test@moonrepo.dev>".into())
        .subkeys(vec![signing_subkey.build().unwrap()]);

    let secret_key = params
        .build()
        .unwrap()
        .generate(StdRng::seed_from_u64(seed))
        .unwrap();
    let public_key = SignedPublicKey::from(secret_key.clone());
    let signature = DetachedSignature::sign_binary_data(
        StdRng::seed_from_u64(seed + 1),
        &secret_key.secret_subkeys[0].key,
        &Password::empty(),
        HashAlgorithm::Sha256,
        CONTENTS,
    )
    .unwrap();

    (public_key, signature)
}

fn armored_signature(signature: &DetachedSignature) -> Vec<u8> {
    signature
        .to_armored_string(ArmorOptions::default())
        .unwrap()
        .into_bytes()
}

#[test]
fn verifies_binary_detached_signature() {
    let (public_key, signature) = create_key_and_signature(1);
    let public_key = armor_public_key(&public_key);
    let mut signature_bytes = vec![];

    signature.to_writer(&mut signature_bytes).unwrap();

    assert!(verify_gpg_checksum(CONTENTS, &signature_bytes, &public_key).unwrap());
}

#[test]
fn verifies_armored_detached_signature() {
    let (public_key, signature) = create_key_and_signature(1);
    let public_key = armor_public_key(&public_key);

    assert!(verify_gpg_checksum(CONTENTS, &armored_signature(&signature), &public_key).unwrap());
}

#[test]
fn verifies_with_multiple_keys_in_one_armored_block() {
    let (unrelated_key, _) = create_key_and_signature(10);
    let (signing_key, signature) = create_key_and_signature(20);
    let mut public_keyring = vec![];

    armor::write(
        &vec![unrelated_key, signing_key],
        BlockType::PublicKey,
        &mut public_keyring,
        None,
        false,
    )
    .unwrap();

    assert!(verify_gpg_checksum(
        CONTENTS,
        &armored_signature(&signature),
        std::str::from_utf8(&public_keyring).unwrap(),
    )
    .unwrap());
}

#[test]
fn verifies_with_multiple_concatenated_armored_blocks() {
    let (unrelated_key, _) = create_key_and_signature(10);
    let (signing_key, signature) = create_key_and_signature(20);
    let public_keyring = format!(
        "{}\n{}",
        armor_public_key(&unrelated_key),
        armor_public_key(&signing_key)
    );

    assert!(verify_gpg_checksum(CONTENTS, &armored_signature(&signature), &public_keyring).unwrap());
}

#[test]
fn rejects_keyring_with_a_malformed_block() {
    let (public_key, signature) = create_key_and_signature(1);
    let public_keyring = format!(
        "{}\n{PUBLIC_KEY_ARMOR_BEGIN}\ninvalid\n{PUBLIC_KEY_ARMOR_END}",
        armor_public_key(&public_key)
    );

    assert!(verify_gpg_checksum(CONTENTS, &armored_signature(&signature), &public_keyring).is_err());
}

#[test]
fn rejects_invalid_detached_signature() {
    let (public_key, signature) = create_key_and_signature(1);
    let public_key = armor_public_key(&public_key);

    assert!(!verify_gpg_checksum(b"tampered", &armored_signature(&signature), &public_key).unwrap());
}

#[test]
fn keyring_with_text_before_a_block_is_refused() {
    let keyring = format!("junk\n{PUBLIC_KEY_ARMOR_BEGIN}\nabc\n{PUBLIC_KEY_ARMOR_END}\n");
    match split_keyring(&keyring) {
        KeyringShape::Blocks(blocks, Some(reason)) => {
            assert!(blocks.is_empty());
            assert_eq!(reason, "unexpected content outside a public key block")
        }
        _ => panic!("expected a refusal"),
    }
    match verify_gpg_checksum(CONTENTS, b"", &keyring) {
        Err(ProtoChecksumError::InvalidGpgKeyring { reason }) => {
            assert_eq!(reason, "unexpected content outside a public key block")
        }
        _ => panic!("expected an invalid keyring"),
    }
}

#[test]
fn keyring_with_text_after_the_blocks_is_refused() {
    let keyring = format!("{PUBLIC_KEY_ARMOR_BEGIN}\nabc\n{PUBLIC_KEY_ARMOR_END}\ntrailing");
    match split_keyring(&keyring) {
        KeyringShape::Blocks(blocks, Some(reason)) => {
            assert_eq!(blocks, vec![format!("{PUBLIC_KEY_ARMOR_BEGIN}\nabc\n{PUBLIC_KEY_ARMOR_END}")]);
            assert_eq!(reason, "unexpected content outside a public key block")
        }
        _ => panic!("expected a refusal"),
    }
}

#[test]
fn keyring_block_without_footer_is_refused() {
    let keyring = format!("{PUBLIC_KEY_ARMOR_BEGIN}\nabc\n");
    match split_keyring(&keyring) {
        KeyringShape::Blocks(_, Some(reason)) => assert_eq!(reason, "public key block is missing its footer"),
        _ => panic!("expected a refusal"),
    }
}

#[test]
fn keyring_is_split_into_its_blocks() {
    let first = format!("{PUBLIC_KEY_ARMOR_BEGIN}\nabc\n{PUBLIC_KEY_ARMOR_END}");
    let second = format!("{PUBLIC_KEY_ARMOR_BEGIN}\ndef\n{PUBLIC_KEY_ARMOR_END}");
    let keyring = format!("  \n{first}\n\n{second}\n");
    match split_keyring(&keyring) {
        KeyringShape::Blocks(blocks, None) => assert_eq!(blocks, vec![first, second]),
        _ => panic!("expected blocks"),
    }
    match split_keyring("binary keyring") {
        KeyringShape::Whole => {}
        _ => panic!("expected a whole keyring"),
    }
}

#[test]
fn empty_armored_keyring_has_no_keys() {
    match verify_gpg_checksum(CONTENTS, b"", "") {
        Err(ProtoChecksumError::InvalidGpgKeyring { reason }) => {
            assert_eq!(reason, "no public keys were found")
        }
        Err(ProtoChecksumError::Gpg) => {}
        _ => panic!("expected a refusal"),
    }
}

#[test]
fn unreadable_block_is_found_before_a_later_malformation() {
    // The first block does not read, and text follows the blocks: the
    // block is read first, so the failure to read it is what comes back.
    let keyring = format!("{PUBLIC_KEY_ARMOR_BEGIN}\ninvalid\n{PUBLIC_KEY_ARMOR_END}\ntrailing");
    match verify_gpg_checksum(CONTENTS, b"", &keyring) {
        Err(ProtoChecksumError::Gpg) => {}
        _ => panic!("expected a read failure"),
    }
}
