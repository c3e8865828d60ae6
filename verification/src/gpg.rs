use vstd::prelude::*;
use pgp::composed::Deserializable;
use crate::checksum::ProtoChecksumError;
use crate::text::{chars_of, strings_seq, substring, trim_chars, trim_spec};

verus! {

#[verifier::external_type_specification]
#[verifier::external_body]
pub struct ExSignedPublicKey(pgp::composed::SignedPublicKey);

#[verifier::external_type_specification]
#[verifier::external_body]
pub struct ExDetachedSignature(pgp::composed::DetachedSignature);

#[verifier::external_type_specification]
#[verifier::external_body]
pub struct ExSignedPublicSubKey(pgp::composed::SignedPublicSubKey);

#[verifier::external_type_specification]
#[verifier::external_body]
pub struct ExPgpError(pgp::errors::Error);

pub open spec fn begin_marker() -> Seq<char> {
    seq![
        '-', '-', '-', '-', '-', 'B', 'E', 'G', 'I', 'N', ' ', 'P', 'G', 'P', ' ', 'P', 'U', 'B', 'L',
        'I', 'C', ' ', 'K', 'E', 'Y', ' ', 'B', 'L', 'O', 'C', 'K', '-', '-', '-', '-', '-',
    ]
}

pub open spec fn end_marker() -> Seq<char> {
    seq![
        '-', '-', '-', '-', '-', 'E', 'N', 'D', ' ', 'P', 'G', 'P', ' ', 'P', 'U', 'B', 'L', 'I', 'C',
        ' ', 'K', 'E', 'Y', ' ', 'B', 'L', 'O', 'C', 'K', '-', '-', '-', '-', '-',
    ]
}

/// The first position at or after `i` where `p` occurs in `s`.
pub open spec fn find_from(s: Seq<char>, p: Seq<char>, i: int) -> Option<int>
    decreases s.len() + 1 - i,
{
    if i < 0 || i + p.len() > s.len() {
        None
    } else if s.subrange(i, i + p.len()) == p {
        Some(i)
    } else {
        find_from(s, p, i + 1)
    }
}

pub open spec fn reason_outside() -> Seq<char> {
    seq![
        'u', 'n', 'e', 'x', 'p', 'e', 'c', 't', 'e', 'd', ' ', 'c', 'o', 'n', 't', 'e', 'n', 't', ' ',
        'o', 'u', 't', 's', 'i', 'd', 'e', ' ', 'a', ' ', 'p', 'u', 'b', 'l', 'i', 'c', ' ', 'k', 'e',
        'y', ' ', 'b', 'l', 'o', 'c', 'k',
    ]
}

pub open spec fn reason_footer() -> Seq<char> {
    seq![
        'p', 'u', 'b', 'l', 'i', 'c', ' ', 'k', 'e', 'y', ' ', 'b', 'l', 'o', 'c', 'k', ' ', 'i', 's',
        ' ', 'm', 'i', 's', 's', 'i', 'n', 'g', ' ', 'i', 't', 's', ' ', 'f', 'o', 'o', 't', 'e', 'r',
    ]
}

pub open spec fn reason_no_keys() -> Seq<char> {
    seq![
        'n', 'o', ' ', 'p', 'u', 'b', 'l', 'i', 'c', ' ', 'k', 'e', 'y', 's', ' ', 'w', 'e', 'r', 'e',
        ' ', 'f', 'o', 'u', 'n', 'd',
    ]
}

/// What `find_from` finds lies at or after the start, within the text,
/// and is the pattern.
pub proof fn lemma_find_from(s: Seq<char>, p: Seq<char>, i: int)
    requires
        0 <= i,
    ensures
        match find_from(s, p, i) {
            Some(j) => i <= j && j + p.len() <= s.len() && s.subrange(j, j + p.len()) == p,
            None => true,
        },
    decreases s.len() + 1 - i,
{
    if i + p.len() > s.len() {
    } else if s.subrange(i, i + p.len()) == p {
    } else {
        lemma_find_from(s, p, i + 1);
    }
}

/// The armored public key blocks of a keyring from position `pos` on, in
/// order, each from its header to its footer, up to the first place where
/// the keyring is malformed (content other than white space around a
/// block, or a block without its footer); and why it is malformed there,
/// if it is.
pub open spec fn blocks_from(k: Seq<char>, pos: int) -> (Seq<Seq<char>>, Option<Seq<char>>)
    decreases k.len() - pos,
{
    if pos < 0 || pos > k.len() {
        (seq![], None)
    } else {
        match find_from(k, begin_marker(), pos) {
            None => {
                if trim_spec(k.subrange(pos, k.len() as int)).len() == 0 {
                    (seq![], None)
                } else {
                    (seq![], Some(reason_outside()))
                }
            },
            Some(b) => {
                if b < pos || trim_spec(k.subrange(pos, b)).len() != 0 {
                    (seq![], Some(reason_outside()))
                } else {
                    match find_from(k, end_marker(), b) {
                        None => (seq![], Some(reason_footer())),
                        Some(e) => {
                            if e < b || e + end_marker().len() > k.len() {
                                (seq![], Some(reason_footer()))
                            } else {
                                let stop = e + end_marker().len();
                                let rest = blocks_from(k, stop);
                                (seq![k.subrange(b, stop)] + rest.0, rest.1)
                            }
                        },
                    }
                }
            },
        }
    }
}

/// The shape of a keyring: read as a whole (binary, or armored without a
/// public key block header), or as a run of armored public key blocks that
/// may end where the keyring is malformed, with the reason.
pub enum KeyringShape {
    Whole,
    Blocks(Vec<String>, Option<String>),
}

/// The shape of a keyring: `None` when it is read as a whole.
pub open spec fn keyring_shape(k: Seq<char>) -> Option<(Seq<Seq<char>>, Option<Seq<char>>)> {
    if find_from(k, begin_marker(), 0) is None {
        None
    } else {
        Some(blocks_from(k, 0))
    }
}

pub(crate) fn find_in(cs: &Vec<char>, pat: &Vec<char>, start: usize) -> (r: Option<usize>)
    requires
        pat@.len() > 0,
        start <= cs@.len(),
    ensures
        match (r, find_from(cs@, pat@, start as int)) {
            (Some(i), Some(j)) => i == j,
            (None, None) => true,
            _ => false,
        },
{
    let mut i: usize = start;
    assert(cs@.len() == cs.len());
    while i < cs.len() && pat.len() <= cs.len() - i
        invariant
            start <= i <= cs@.len(),
            cs@.len() <= usize::MAX,
            pat@.len() > 0,
            find_from(cs@, pat@, start as int) == find_from(cs@, pat@, i as int),
        decreases cs@.len() - i,
    {
        let mut k: usize = 0;
        let mut same = true;
        while k < pat.len()
            invariant
                i + pat@.len() <= cs@.len(),
                cs@.len() <= usize::MAX,
                k <= pat@.len(),
                same == forall|m: int| 0 <= m < k ==> cs@[i + m] == pat@[m],
            decreases pat@.len() - k,
        {
            if cs[i + k] != pat[k] {
                same = false;
            }
            k = k + 1;
        }
        if same {
            assert(cs@.subrange(i as int, i + pat@.len()) =~= pat@);
            return Some(i);
        }
        assert(cs@.subrange(i as int, i + pat@.len()) != pat@) by {
            let m = choose|m: int| 0 <= m < pat@.len() && cs@[i + m] != pat@[m];
            assert(cs@.subrange(i as int, i + pat@.len())[m] != pat@[m]);
        }
        i = i + 1;
    }
    None
}

fn is_blank(cs: &Vec<char>, start: usize, end: usize) -> (r: bool)
    requires
        start <= end <= cs@.len(),
    ensures
        r == (trim_spec(cs@.subrange(start as int, end as int)).len() == 0),
{
    let part = chars_of(substring(cs, start, end).as_str());
    chars_of(trim_chars(&part).as_str()).len() == 0
}

/// Split a keyring into its armored public key blocks, up to where it is
/// malformed.
pub fn split_keyring(keyring: &str) -> (r: KeyringShape)
    ensures
        match (r, keyring_shape(keyring@)) {
            (KeyringShape::Whole, None) => true,
            (KeyringShape::Blocks(v, e), Some((bs, x))) => strings_seq(v@) == bs && match (e, x) {
                (Some(a), Some(b)) => a@ == b,
                (None, None) => true,
                _ => false,
            },
            _ => false,
        },
{
    let cs = chars_of(keyring);
    let begin = chars_of("-----BEGIN PGP PUBLIC KEY BLOCK-----");
    let end = chars_of("-----END PGP PUBLIC KEY BLOCK-----");
    proof {
        reveal_strlit("-----BEGIN PGP PUBLIC KEY BLOCK-----");
        reveal_strlit("-----END PGP PUBLIC KEY BLOCK-----");
        assert(begin@ =~= begin_marker());
        assert(end@ =~= end_marker());
    }
    if find_in(&cs, &begin, 0).is_none() {
        return KeyringShape::Whole;
    }
    let outside = "unexpected content outside a public key block";
    let footer = "public key block is missing its footer";
    proof {
        reveal_strlit("unexpected content outside a public key block");
        reveal_strlit("public key block is missing its footer");
        assert(outside@ =~= reason_outside());
        assert(footer@ =~= reason_footer());
    }
    let mut blocks: Vec<String> = Vec::new();
    let mut pos: usize = 0;
    while pos <= cs.len()
        invariant
            pos <= cs@.len(),
            cs@ == keyring@,
            begin@ == begin_marker(),
            end@ == end_marker(),
            outside@ == reason_outside(),
            footer@ == reason_footer(),
            find_from(cs@, begin_marker(), 0) is Some,
            blocks_from(cs@, 0) == (strings_seq(blocks@) + blocks_from(cs@, pos as int).0, blocks_from(
                cs@,
                pos as int,
            ).1),
        decreases cs@.len() - pos,
    {
        proof {
            lemma_find_from(cs@, begin@, pos as int);
        }
        match find_in(&cs, &begin, pos) {
            None => {
                assert(strings_seq(blocks@) + Seq::<Seq<char>>::empty() =~= strings_seq(blocks@));
                if is_blank(&cs, pos, cs.len()) {
                    return KeyringShape::Blocks(blocks, None);
                } else {
                    return KeyringShape::Blocks(blocks, Some(outside.to_owned()));
                }
            },
            Some(b) => {
                assert(strings_seq(blocks@) + Seq::<Seq<char>>::empty() =~= strings_seq(blocks@));
                if !is_blank(&cs, pos, b) {
                    return KeyringShape::Blocks(blocks, Some(outside.to_owned()));
                }
                proof {
                    lemma_find_from(cs@, end@, b as int);
                }
                match find_in(&cs, &end, b) {
                    None => {
                        return KeyringShape::Blocks(blocks, Some(footer.to_owned()));
                    },
                    Some(e) => {
                        if end.len() > cs.len() - e {
                            return KeyringShape::Blocks(blocks, Some(footer.to_owned()));
                        }
                        let stop = e + end.len();
                        let ghost before = strings_seq(blocks@);
                        blocks.push(substring(&cs, b, stop));
                        proof {
                            assert(strings_seq(blocks@) =~= before.push(cs@.subrange(b as int, stop as int)));
                            let rest = blocks_from(cs@, stop as int);
                            assert(before + (seq![cs@.subrange(b as int, stop as int)] + rest.0) =~= strings_seq(blocks@) + rest.0);
                        }
                        pos = stop;
                    },
                }
            },
        }
    }
    KeyringShape::Blocks(blocks, None)
}

/// Where a key was read: the text it was read from (a whole keyring, or
/// one armored block), whether that text is an armored block, and the
/// key's position among the keys read from it.
pub type KeyOrigin = (Seq<char>, bool, nat);

/// A public key read from a keyring, with where it was read. Keys are made
/// only by reading them.
pub struct GpgKey {
    key: pgp::composed::SignedPublicKey,
    source: String,
    armored: bool,
    index: usize,
}

impl GpgKey {
    pub closed spec fn origin(&self) -> KeyOrigin {
        (self.source@, self.armored, self.index as nat)
    }
}

/// A public subkey of a key read from a keyring: where its key was read,
/// and its position among the key's public subkeys.
pub struct GpgSubkey {
    subkey: pgp::composed::SignedPublicSubKey,
    source: String,
    armored: bool,
    index: usize,
    position: usize,
}

impl GpgSubkey {
    pub closed spec fn origin(&self) -> KeyOrigin {
        (self.source@, self.armored, self.index as nat)
    }

    pub closed spec fn position(&self) -> nat {
        self.position as nat
    }
}

/// A detached signature with the bytes it was read from.
pub struct GpgSignature {
    signature: pgp::composed::DetachedSignature,
    bytes: Vec<u8>,
}

impl GpgSignature {
    pub closed spec fn bytes(&self) -> Seq<u8> {
        self.bytes@
    }
}

pub open spec fn origins(v: Seq<GpgKey>) -> Seq<KeyOrigin> {
    v.map_values(|k: GpgKey| k.origin())
}

/// How many keys `SignedPublicKey::from_reader_many` reads from a whole
/// keyring: `None` when it or one of the keys fails to read.
pub uninterp spec fn whole_keys_read(keyring: Seq<char>) -> Option<nat>;

/// How many keys `SignedPublicKey::from_armor_many` reads from an armored
/// block: `None` when it or one of the keys fails to read.
pub uninterp spec fn armored_keys_read(block: Seq<char>) -> Option<nat>;

/// Whether `DetachedSignature::from_reader_single` reads a signature from
/// the bytes.
pub uninterp spec fn signature_read(data: Seq<u8>) -> bool;

/// Whether `SignedPublicKey::verify_bindings` holds for the key read at
/// the origin.
pub uninterp spec fn bindings_hold(source: Seq<char>, armored: bool, index: nat) -> bool;

/// How many public subkeys the key read at the origin has.
pub uninterp spec fn subkey_count(source: Seq<char>, armored: bool, index: nat) -> nat;

/// Whether `DetachedSignature::verify` accepts the signature read from
/// `signature` over `data`, with the key read at the origin (`subkey`
/// `None`) or with one of its public subkeys.
pub uninterp spec fn signature_verifies(
    signature: Seq<u8>,
    source: Seq<char>,
    armored: bool,
    index: nat,
    subkey: Option<nat>,
    data: Seq<u8>,
) -> bool;

/// `SignedPublicKey::from_reader_many` on the keyring's bytes, every key
/// read (the first failure as the error), each tagged with the keyring and
/// its position. Claimed: the number of keys read, or the failure, depends
/// on the keyring's text alone.
#[verifier::external_body]
fn read_keys(data: &str) -> (r: Result<Vec<GpgKey>, pgp::errors::Error>)
    ensures
        match r {
            Ok(v) => whole_keys_read(data@) == Some(v@.len()) && forall|i: int|
                0 <= i < v@.len() ==> (#[trigger] v@[i]).origin() == (data@, false, i as nat),
            Err(_) => whole_keys_read(data@) is None,
        },
{
    let (keys, _) = pgp::composed::SignedPublicKey::from_reader_many(data.as_bytes())?;
    let keys: Vec<pgp::composed::SignedPublicKey> = keys.collect::<Result<_, _>>()?;
    Ok(keys.into_iter().enumerate().map(|(index, key)| GpgKey { key, source: data.to_owned(), armored: false, index }).collect())
}

/// `SignedPublicKey::from_armor_many` on one armored block's bytes, every
/// key read (the first failure as the error), each tagged with the block
/// and its position. Claimed: the number of keys read, or the failure,
/// depends on the block's text alone.
#[verifier::external_body]
fn read_armored_keys(block: &str) -> (r: Result<Vec<GpgKey>, pgp::errors::Error>)
    ensures
        match r {
            Ok(v) => armored_keys_read(block@) == Some(v@.len()) && forall|i: int|
                0 <= i < v@.len() ==> (#[trigger] v@[i]).origin() == (block@, true, i as nat),
            Err(_) => armored_keys_read(block@) is None,
        },
{
    let (keys, _) = pgp::composed::SignedPublicKey::from_armor_many(block.as_bytes())?;
    let keys: Vec<pgp::composed::SignedPublicKey> = keys.collect::<Result<_, _>>()?;
    Ok(keys.into_iter().enumerate().map(|(index, key)| GpgKey { key, source: block.to_owned(), armored: true, index }).collect())
}

/// The keys of a run of armored blocks, block by block, each with where it
/// was read; `None` when a block does not read.
pub open spec fn block_keys(bs: Seq<Seq<char>>) -> Option<Seq<KeyOrigin>>
    decreases bs.len(),
{
    if bs.len() == 0 {
        Some(seq![])
    } else {
        match (block_keys(bs.drop_last()), armored_keys_read(bs.last())) {
            (Some(ks), Some(n)) => Some(ks + Seq::new(n, |i: int| (bs.last(), true, i as nat))),
            _ => None,
        }
    }
}

/// What reading the keys of a keyring gives.
pub enum KeysOutcome {
    /// The keys, each with where it was read.
    Keys(Seq<KeyOrigin>),
    /// The keyring is refused, for the reason.
    Invalid(Seq<char>),
    /// A key or block does not read.
    Unreadable,
}

/// The keys of a keyring: read as a whole when it holds no armored public
/// key block header, else block by block, the blocks in order, up to where
/// the keyring is malformed (a block that does not read is found before a
/// malformation after it). A keyring without keys is refused.
pub open spec fn keyring_keys(k: Seq<char>) -> KeysOutcome {
    match keyring_shape(k) {
        None => match whole_keys_read(k) {
            None => KeysOutcome::Unreadable,
            Some(n) => if n == 0 {
                KeysOutcome::Invalid(reason_no_keys())
            } else {
                KeysOutcome::Keys(Seq::new(n, |i: int| (k, false, i as nat)))
            },
        },
        Some((bs, err)) => match block_keys(bs) {
            None => KeysOutcome::Unreadable,
            Some(ks) => match err {
                Some(x) => KeysOutcome::Invalid(x),
                None => if ks.len() == 0 {
                    KeysOutcome::Invalid(reason_no_keys())
                } else {
                    KeysOutcome::Keys(ks)
                },
            },
        },
    }
}

/// Read the public keys of a keyring.
pub fn parse_public_keys(keyring: &str) -> (r: Result<Vec<GpgKey>, ProtoChecksumError>)
    ensures
        match keyring_keys(keyring@) {
            KeysOutcome::Keys(ks) => r matches Ok(v) && origins(v@) == ks,
            KeysOutcome::Invalid(x) => r matches Err(ProtoChecksumError::InvalidGpgKeyring { reason }) && reason@ == x,
            KeysOutcome::Unreadable => r matches Err(ProtoChecksumError::Gpg),
        },
{
    let no_keys = "no public keys were found";
    proof {
        reveal_strlit("no public keys were found");
        assert(no_keys@ =~= reason_no_keys());
    }
    let keys: Vec<GpgKey>;
    match split_keyring(keyring) {
        KeyringShape::Whole => {
            match read_keys(keyring) {
                Ok(v) => {
                    assert(origins(v@) =~= Seq::new(v@.len(), |i: int| (keyring@, false, i as nat)));
                    keys = v;
                },
                Err(_) => {
                    return Err(ProtoChecksumError::Gpg);
                },
            }
        },
        KeyringShape::Blocks(blocks, malformed) => {
            let ghost bs = strings_seq(blocks@);
            let mut acc: Vec<GpgKey> = Vec::new();
            let mut i: usize = 0;
            assert(origins(acc@) =~= seq![]);
            while i < blocks.len()
                invariant
                    i <= blocks@.len(),
                    bs == strings_seq(blocks@),
                    keyring_shape(keyring@) matches Some((b, _)) && b == bs,
                    block_keys(bs.subrange(0, i as int)) == Some(origins(acc@)),
                decreases blocks@.len() - i,
            {
                proof {
                    assert(bs.subrange(0, i + 1).drop_last() =~= bs.subrange(0, i as int));
                    assert(bs.subrange(0, i + 1).last() == blocks@[i as int]@);
                }
                match read_armored_keys(blocks[i].as_str()) {
                    Ok(mut v) => {
                        let ghost before = origins(acc@);
                        let ghost got = origins(v@);
                        assert(got =~= Seq::new(v@.len(), |k: int| (blocks@[i as int]@, true, k as nat)));
                        acc.append(&mut v);
                        assert(origins(acc@) =~= before + got);
                    },
                    Err(_) => {
                        proof {
                            lemma_block_keys_prefix_fails(bs, i as int + 1);
                        }
                        return Err(ProtoChecksumError::Gpg);
                    },
                }
                i = i + 1;
            }
            assert(bs.subrange(0, bs.len() as int) =~= bs);
            match malformed {
                Some(reason) => {
                    return Err(ProtoChecksumError::InvalidGpgKeyring { reason });
                },
                None => {},
            }
            keys = acc;
        },
    }
    if keys.len() == 0 {
        return Err(ProtoChecksumError::InvalidGpgKeyring { reason: no_keys.to_owned() });
    }
    Ok(keys)
}

proof fn lemma_block_keys_prefix_fails(bs: Seq<Seq<char>>, n: int)
    requires
        0 <= n <= bs.len(),
        block_keys(bs.subrange(0, n)) is None,
    ensures
        block_keys(bs) is None,
    decreases bs.len() - n,
{
    if n < bs.len() {
        assert(bs.subrange(0, n + 1).drop_last() =~= bs.subrange(0, n));
        lemma_block_keys_prefix_fails(bs, n + 1);
    } else {
        assert(bs.subrange(0, n) =~= bs);
    }
}

/// `DetachedSignature::from_reader_single` on the signature's bytes, the
/// signature kept with them. Claimed: whether it reads depends on the
/// bytes alone.
#[verifier::external_body]
fn read_signature(data: &[u8]) -> (r: Result<GpgSignature, pgp::errors::Error>)
    ensures
        match r {
            Ok(s) => signature_read(data@) && s.bytes() == data@,
            Err(_) => !signature_read(data@),
        },
{
    let (signature, _) = pgp::composed::DetachedSignature::from_reader_single(data)?;
    Ok(GpgSignature { signature, bytes: data.to_vec() })
}

/// `SignedPublicKey::verify_bindings`: whether the key's self-signatures
/// hold. Claimed: this depends on where the key was read alone.
#[verifier::external_body]
fn key_bindings_hold(key: &GpgKey) -> (r: bool)
    ensures
        r == bindings_hold(key.origin().0, key.origin().1, key.origin().2),
{
    key.key.verify_bindings().is_ok()
}

/// `DetachedSignature::verify` with the primary key. Claimed: the result
/// depends on the signature's bytes, where the key was read, and the data
/// alone.
#[verifier::external_body]
fn verifies_with_key(signature: &GpgSignature, key: &GpgKey, data: &[u8]) -> (r: bool)
    ensures
        r == signature_verifies(signature.bytes(), key.origin().0, key.origin().1, key.origin().2, None, data@),
{
    signature.signature.verify(&key.key, data).is_ok()
}

/// `DetachedSignature::verify` with one public subkey. Claimed as for the
/// primary key, with the subkey's position.
#[verifier::external_body]
fn verifies_with_subkey(signature: &GpgSignature, subkey: &GpgSubkey, data: &[u8]) -> (r: bool)
    ensures
        r == signature_verifies(
            signature.bytes(),
            subkey.origin().0,
            subkey.origin().1,
            subkey.origin().2,
            Some(subkey.position()),
            data@,
        ),
{
    signature.signature.verify(&subkey.subkey, data).is_ok()
}

/// A copy of a key's `public_subkeys` field, each tagged with its key's
/// origin and its position.
#[verifier::external_body]
fn subkeys_of(key: &GpgKey) -> (r: Vec<GpgSubkey>)
    ensures
        r@.len() == subkey_count(key.origin().0, key.origin().1, key.origin().2),
        forall|j: int| 0 <= j < r@.len() ==> (#[trigger] r@[j]).origin() == key.origin() && r@[j].position() == j,
{
    key.key.public_subkeys.iter().enumerate().map(|(position, subkey)| GpgSubkey {
        subkey: subkey.clone(),
        source: key.source.clone(),
        armored: key.armored,
        index: key.index,
        position,
    }).collect()
}

/// Whether the key read at the origin, or one of its public subkeys,
/// verifies the signature over the data.
pub open spec fn key_accepts(o: KeyOrigin, signature: Seq<u8>, data: Seq<u8>) -> bool {
    ||| signature_verifies(signature, o.0, o.1, o.2, None, data)
    ||| exists|j: nat| j < subkey_count(o.0, o.1, o.2) && #[trigger] signature_verifies(
        signature,
        o.0,
        o.1,
        o.2,
        Some(j),
        data,
    )
}

/// Every key's bindings hold.
pub open spec fn all_bindings_hold(ks: Seq<KeyOrigin>) -> bool {
    forall|i: int| 0 <= i < ks.len() ==> bindings_hold(#[trigger] ks[i].0, ks[i].1, ks[i].2)
}

/// Some key, or one of its subkeys, verifies the signature over the data.
pub open spec fn some_key_accepts(ks: Seq<KeyOrigin>, signature: Seq<u8>, data: Seq<u8>) -> bool {
    exists|i: int| 0 <= i < ks.len() && key_accepts(#[trigger] ks[i], signature, data)
}

/// What verifying against a detached signature gives.
pub enum GpgVerdict {
    /// The keyring is refused, for the reason.
    Invalid(Seq<char>),
    /// A key, the signature, or a key's bindings fail.
    Failed,
    /// Whether the download verifies.
    Checked(bool),
}

/// The keyring must read (see `keyring_keys`), the signature must read, and
/// every key's bindings must hold; then the download verifies exactly when
/// some key, or one of its subkeys, verifies the signature.
pub open spec fn gpg_verdict(keyring: Seq<char>, signature: Seq<u8>, data: Seq<u8>) -> GpgVerdict {
    match keyring_keys(keyring) {
        KeysOutcome::Invalid(x) => GpgVerdict::Invalid(x),
        KeysOutcome::Unreadable => GpgVerdict::Failed,
        KeysOutcome::Keys(ks) => if !signature_read(signature) || !all_bindings_hold(ks) {
            GpgVerdict::Failed
        } else {
            GpgVerdict::Checked(some_key_accepts(ks, signature, data))
        },
    }
}

/// Verify a download against a detached GPG signature with the keys of a
/// keyring.
pub fn verify_gpg_checksum(download: &[u8], signature: &[u8], keyring: &str) -> (r: Result<bool, ProtoChecksumError>)
    ensures
        match gpg_verdict(keyring@, signature@, download@) {
            GpgVerdict::Invalid(x) => r matches Err(ProtoChecksumError::InvalidGpgKeyring { reason }) && reason@ == x,
            GpgVerdict::Failed => r matches Err(ProtoChecksumError::Gpg),
            GpgVerdict::Checked(b) => r == Ok::<bool, ProtoChecksumError>(b),
        },
{
    let keys = match parse_public_keys(keyring) {
        Ok(keys) => keys,
        Err(e) => {
            return Err(e);
        },
    };
    let ghost ks = origins(keys@);
    assert(keyring_keys(keyring@) == KeysOutcome::Keys(ks));
    let sig = match read_signature(signature) {
        Ok(s) => s,
        Err(_) => {
            return Err(ProtoChecksumError::Gpg);
        },
    };
    let mut i: usize = 0;
    while i < keys.len()
        invariant
            i <= keys@.len(),
            ks == origins(keys@),
            keyring_keys(keyring@) == KeysOutcome::Keys(ks),
            signature_read(signature@),
            forall|m: int| 0 <= m < i ==> bindings_hold(#[trigger] ks[m].0, ks[m].1, ks[m].2),
        decreases keys@.len() - i,
    {
        if !key_bindings_hold(&keys[i]) {
            assert(ks[i as int] == keys@[i as int].origin());
            assert(!bindings_hold(ks[i as int].0, ks[i as int].1, ks[i as int].2));
            assert(!all_bindings_hold(ks));
            return Err(ProtoChecksumError::Gpg);
        }
        assert(ks[i as int] == keys@[i as int].origin());
        i = i + 1;
    }
    let mut j: usize = 0;
    while j < keys.len()
        invariant
            j <= keys@.len(),
            ks == origins(keys@),
            keyring_keys(keyring@) == KeysOutcome::Keys(ks),
            signature_read(signature@),
            forall|m: int| 0 <= m < ks.len() ==> bindings_hold(#[trigger] ks[m].0, ks[m].1, ks[m].2),
            sig.bytes() == signature@,
            forall|m: int| 0 <= m < j ==> !key_accepts(#[trigger] ks[m], signature@, download@),
        decreases keys@.len() - j,
    {
        let ghost o = keys@[j as int].origin();
        assert(ks[j as int] == o);
        if verifies_with_key(&sig, &keys[j], download) {
            assert(key_accepts(ks[j as int], signature@, download@));
            assert(some_key_accepts(ks, signature@, download@));
            return Ok(true);
        }
        let subkeys = subkeys_of(&keys[j]);
        let mut k: usize = 0;
        while k < subkeys.len()
            invariant
                k <= subkeys@.len(),
                j < keys@.len(),
                ks == origins(keys@),
                ks[j as int] == o,
                keyring_keys(keyring@) == KeysOutcome::Keys(ks),
                signature_read(signature@),
                forall|m: int| 0 <= m < ks.len() ==> bindings_hold(#[trigger] ks[m].0, ks[m].1, ks[m].2),
                subkeys@.len() == subkey_count(o.0, o.1, o.2),
                forall|n: int| 0 <= n < subkeys@.len() ==> (#[trigger] subkeys@[n]).origin() == o && subkeys@[n].position() == n,
                sig.bytes() == signature@,
                forall|n: nat| n < k ==> !#[trigger] signature_verifies(signature@, o.0, o.1, o.2, Some(n), download@),
            decreases subkeys@.len() - k,
        {
            assert(subkeys@[k as int].origin() == o && subkeys@[k as int].position() == k);
            if verifies_with_subkey(&sig, &subkeys[k], download) {
                assert(signature_verifies(signature@, o.0, o.1, o.2, Some(k as nat), download@));
                assert(key_accepts(ks[j as int], signature@, download@));
                assert(some_key_accepts(ks, signature@, download@));
                return Ok(true);
            }
            k = k + 1;
        }
        assert(!key_accepts(ks[j as int], signature@, download@)) by {
            if exists|n: nat| n < subkey_count(o.0, o.1, o.2) && #[trigger] signature_verifies(signature@, o.0, o.1, o.2, Some(n), download@) {
                let n = choose|n: nat| n < subkey_count(o.0, o.1, o.2) && #[trigger] signature_verifies(signature@, o.0, o.1, o.2, Some(n), download@);
                assert(!signature_verifies(signature@, o.0, o.1, o.2, Some(n), download@));
            }
        }
        j = j + 1;
    }
    assert(!some_key_accepts(ks, signature@, download@));
    Ok(false)
}

} // verus!
