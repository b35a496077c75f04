//! Hierarchical deterministic keys: from a seed to the master key, and from
//! a key to its children along a path.
//!
//! The derivation itself is that of `coins_bip32`. This module decides which
//! derivations are asked for, in which order, and what is made of each
//! outcome: nothing is retried here, so a child whose scalar is not usable
//! is reported and not replaced by its neighbour.

use crate::bigendian::zeros;
use crate::error::WalletError;
use crate::scalar::{is_valid_scalar, valid_scalar};
use coins_bip32::enc::{MainnetEncoder, XKeyEncoder};
use coins_bip32::primitives::{ChainCode, Hint, KeyFingerprint, XKeyInfo};
use coins_bip32::xkeys::{Parent, XPriv};
use k256::ecdsa::SigningKey;
use vstd::prelude::*;

verus! {

/// Indices from here on are hardened.
pub const HARDENED_OFFSET: u32 = 0x8000_0000;

/// First step of the default path: the purpose.
pub const DEFAULT_PURPOSE: u32 = 44;

/// Second step of the default path: the coin type.
pub const DEFAULT_COIN_TYPE: u32 = 60;

/// Third step of the default path: the account.
pub const DEFAULT_ACCOUNT: u32 = 0;

/// Fourth step of the default path: the chain of receiving addresses.
pub const DEFAULT_CHANGE: u32 = 0;

/// Fewest bytes that a seed may have.
pub const MIN_SEED_LEN: usize = 16;

/// Fewest characters that a serialized extended private key can have: it
/// spells 82 bytes, and no character spells more than one.
pub const MIN_SERIALIZED_LEN: usize = 82;

/// One step of a derivation path.
#[derive(Clone, Copy, Debug, PartialEq, Eq)]
pub struct PathStep {
    /// The index of the child, below 2 to the 31.
    pub index: u32,
    /// Whether the child is derived from the private key alone.
    pub hardened: bool,
}

/// A private key with what is needed to derive its children.
#[derive(Clone, Copy, Debug, PartialEq, Eq)]
pub struct ExtendedPrivateKey {
    key: [u8; 32],
    chain_code: [u8; 32],
    depth: u8,
    parent_fingerprint: [u8; 4],
    child_index: u32,
}

/// What an `ExtendedPrivateKey` holds.
pub struct ExtendedKeyView {
    pub key: Seq<u8>,
    pub chain_code: Seq<u8>,
    pub depth: u8,
    pub parent_fingerprint: Seq<u8>,
    pub child_index: u32,
}

impl View for ExtendedPrivateKey {
    type V = ExtendedKeyView;

    closed spec fn view(&self) -> ExtendedKeyView {
        ExtendedKeyView {
            key: self.key@,
            chain_code: self.chain_code@,
            depth: self.depth,
            parent_fingerprint: self.parent_fingerprint@,
            child_index: self.child_index,
        }
    }
}

/// The master key of a seed: its private key and its chain code, or nothing
/// where the seed has none.
pub uninterp spec fn bip32_master(seed: Seq<u8>) -> Option<(Seq<u8>, Seq<u8>)>;

/// The child of a key at an index as it is written into the child: its
/// private key, its chain code, the fingerprint of the parent and the index
/// that the child was derived at; or nothing where there is no child.
pub uninterp spec fn bip32_child(key: Seq<u8>, chain_code: Seq<u8>, index: u32) -> Option<
    (Seq<u8>, Seq<u8>, Seq<u8>, u32),
>;

/// The text form of an extended private key.
pub uninterp spec fn xpriv_base58(key: ExtendedKeyView) -> Seq<char>;

/// The extended private key that a text spells, or nothing.
pub uninterp spec fn xpriv_from_base58(text: Seq<char>) -> Option<ExtendedKeyView>;

/// The index as it is written into a key: hardened indices lie above the
/// others.
pub open spec fn raw_index(step: PathStep) -> u32 {
    if step.hardened {
        (step.index + HARDENED_OFFSET) as u32
    } else {
        step.index
    }
}

/// A step whose index is below 2 to the 31 and which is not the last
/// hardened one.
pub open spec fn usable_step(step: PathStep) -> bool {
    step.index < HARDENED_OFFSET && raw_index(step) < u32::MAX
}

/// What is made of the outcome of deriving a master key.
pub open spec fn accepted_master(outcome: Option<(Seq<u8>, Seq<u8>)>) -> Result<
    ExtendedKeyView,
    WalletError,
> {
    match outcome {
        Some((key, chain_code)) => Ok(
            ExtendedKeyView {
                key,
                chain_code,
                depth: 0,
                parent_fingerprint: zeros(4),
                child_index: 0,
            },
        ),
        None => Err(WalletError::InvalidChildKey),
    }
}

/// The master key of `seed`.
pub open spec fn master_key(seed: Seq<u8>) -> Result<ExtendedKeyView, WalletError> {
    if seed.len() < MIN_SEED_LEN {
        Err(WalletError::InvalidSeedLength)
    } else {
        accepted_master(bip32_master(seed))
    }
}

/// What is made of the outcome of a derivation: the child, where there is
/// one and it was derived at the index asked for.
pub open spec fn accepted_child(requested: u32, outcome: Option<ExtendedKeyView>) -> Result<
    ExtendedKeyView,
    WalletError,
> {
    match outcome {
        Some(child) => if child.child_index == requested {
            Ok(child)
        } else {
            Err(WalletError::InvalidChildKey)
        },
        None => Err(WalletError::InvalidChildKey),
    }
}

/// The outcome of deriving the child of `parent` at the raw index `index`.
pub open spec fn derivation_outcome(parent: ExtendedKeyView, index: u32) -> Option<
    ExtendedKeyView,
> {
    match bip32_child(parent.key, parent.chain_code, index) {
        Some((key, chain_code, fingerprint, used)) => Some(
            ExtendedKeyView {
                key,
                chain_code,
                depth: (parent.depth + 1) as u8,
                parent_fingerprint: fingerprint,
                child_index: used,
            },
        ),
        None => None,
    }
}

/// The child of `parent` one step down.
pub open spec fn child_key(parent: ExtendedKeyView, step: PathStep) -> Result<
    ExtendedKeyView,
    WalletError,
> {
    if !usable_step(step) {
        Err(WalletError::InvalidChildIndex)
    } else if parent.depth == u8::MAX {
        Err(WalletError::DepthExceeded)
    } else {
        accepted_child(raw_index(step), derivation_outcome(parent, raw_index(step)))
    }
}

/// The descendant of `start` at the end of `path`: one child after the
/// other, up to the first failure.
pub open spec fn descendant_key(start: ExtendedKeyView, path: Seq<PathStep>) -> Result<
    ExtendedKeyView,
    WalletError,
>
    decreases path.len(),
{
    if path.len() == 0 {
        Ok(start)
    } else {
        match child_key(start, path.first()) {
            Ok(child) => descendant_key(child, path.drop_first()),
            Err(e) => Err(e),
        }
    }
}

/// The key at the end of `path` below the master key of `seed`.
pub open spec fn path_key(seed: Seq<u8>, path: Seq<PathStep>) -> Result<
    ExtendedKeyView,
    WalletError,
> {
    match master_key(seed) {
        Ok(master) => descendant_key(master, path),
        Err(e) => Err(e),
    }
}

/// The default path `m/44'/60'/0'/0/index`.
pub open spec fn default_path_to(index: u32) -> Seq<PathStep> {
    seq![
        PathStep { index: DEFAULT_PURPOSE, hardened: true },
        PathStep { index: DEFAULT_COIN_TYPE, hardened: true },
        PathStep { index: DEFAULT_ACCOUNT, hardened: true },
        PathStep { index: DEFAULT_CHANGE, hardened: false },
        PathStep { index, hardened: false },
    ]
}

/// `XPriv::root_from_seed` of `coins_bip32`. Believed of it: it gives a key
/// exactly where the seed has a master key; the key is at depth 0, with a
/// parent fingerprint of four zero bytes and index 0; and its private key is
/// a valid scalar.
#[verifier::external_body]
fn root_from_seed(seed: &[u8]) -> (r: Option<ExtendedPrivateKey>)
    ensures
        match r {
            Some(k) => bip32_master(seed@) == Some((k@.key, k@.chain_code)) && k@.depth == 0
                && k@.parent_fingerprint == zeros(4) && k@.child_index == 0 && k.wf(),
            None => bip32_master(seed@) is None,
        },
{
    let x = XPriv::root_from_seed(seed, None).ok()?;
    let (i, k): (&XKeyInfo, &SigningKey) = (x.as_ref(), x.as_ref());
    Some(ExtendedPrivateKey { key: k.to_bytes().into(), chain_code: i.chain_code.0, depth: i.depth, parent_fingerprint: i.parent.0, child_index: i.index })
}

/// `XPriv::derive_child` of `coins_bip32`, on a parent that is put together
/// from its parts with `XPriv::new`. Believed of it: it gives a key exactly where there is a
/// child; the child is one level below the parent; and its private key is a
/// valid scalar. The index in the child is the one that the child was
/// derived at, which need not be the one asked for.
#[verifier::external_body]
fn derive_child_raw(parent: &ExtendedPrivateKey, index: u32) -> (r: Option<ExtendedPrivateKey>)
    requires
        parent.wf(),
        parent@.depth < u8::MAX,
        index < u32::MAX,
    ensures
        match r {
            Some(k) => bip32_child(parent@.key, parent@.chain_code, index) == Some(
                (k@.key, k@.chain_code, k@.parent_fingerprint, k@.child_index),
            ) && k@.depth == parent@.depth + 1 && k.wf(),
            None => bip32_child(parent@.key, parent@.chain_code, index) is None,
        },
{
    let s = SigningKey::from_bytes((&parent.key).into()).unwrap();
    let info = XKeyInfo { depth: parent.depth, parent: KeyFingerprint(parent.parent_fingerprint), index: parent.child_index, chain_code: ChainCode(parent.chain_code), hint: Hint::Legacy };
    let x = XPriv::new(s, info).derive_child(index).ok()?;
    let (i, k): (&XKeyInfo, &SigningKey) = (x.as_ref(), x.as_ref());
    Some(ExtendedPrivateKey { key: k.to_bytes().into(), chain_code: i.chain_code.0, depth: i.depth, parent_fingerprint: i.parent.0, child_index: i.index })
}

/// `MainnetEncoder::xpriv_to_base58` of `coins_bip32`: the text form of the
/// key, which this library knows by name only.
#[verifier::external_body]
fn xpriv_to_text(key: &ExtendedPrivateKey) -> (r: String)
    requires
        key.wf(),
    ensures
        r@ == xpriv_base58(key@),
{
    let s = SigningKey::from_bytes((&key.key).into()).unwrap();
    let info = XKeyInfo { depth: key.depth, parent: KeyFingerprint(key.parent_fingerprint), index: key.child_index, chain_code: ChainCode(key.chain_code), hint: Hint::Legacy };
    MainnetEncoder::xpriv_to_base58(&XPriv::new(s, info)).unwrap()
}

/// `MainnetEncoder::xpriv_from_base58` of `coins_bip32`. Believed of it: it
/// gives a key exactly where the text spells one, and the private key of
/// what it gives is a valid scalar. Texts of fewer than 82 characters are
/// kept from it: on some of them it does not return.
#[verifier::external_body]
fn xpriv_from_text(text: &str) -> (r: Option<ExtendedPrivateKey>)
    requires
        text@.len() >= MIN_SERIALIZED_LEN,
    ensures
        match r {
            Some(k) => xpriv_from_base58(text@) == Some(k@) && k.wf(),
            None => xpriv_from_base58(text@) is None,
        },
{
    let x = MainnetEncoder::xpriv_from_base58(text).ok()?;
    let (i, k): (&XKeyInfo, &SigningKey) = (x.as_ref(), x.as_ref());
    Some(ExtendedPrivateKey { key: k.to_bytes().into(), chain_code: i.chain_code.0, depth: i.depth, parent_fingerprint: i.parent.0, child_index: i.index })
}

impl ExtendedPrivateKey {
    /// Whether the private key is a number above zero and below the order of
    /// the curve. Every key that this library hands out is.
    pub closed spec fn wf(&self) -> bool {
        valid_scalar(self.key@)
    }

    /// Puts a key together from its parts; `None` where the private key is
    /// zero or not below the order of the curve.
    pub fn new(
        key: [u8; 32],
        chain_code: [u8; 32],
        depth: u8,
        parent_fingerprint: [u8; 4],
        child_index: u32,
    ) -> (r: Option<ExtendedPrivateKey>)
        ensures
            r is Some <==> valid_scalar(key@),
            r is Some ==> r.unwrap().wf() && r.unwrap()@ == (ExtendedKeyView {
                key: key@,
                chain_code: chain_code@,
                depth,
                parent_fingerprint: parent_fingerprint@,
                child_index,
            }),
    {
        if is_valid_scalar(&key) {
            Some(ExtendedPrivateKey { key, chain_code, depth, parent_fingerprint, child_index })
        } else {
            None
        }
    }

    /// The private key.
    pub fn private_key(&self) -> (r: [u8; 32])
        ensures
            r@ == self@.key,
            self.wf() ==> valid_scalar(r@),
    {
        self.key
    }

    /// The chain code.
    pub fn chain_code(&self) -> (r: [u8; 32])
        ensures
            r@ == self@.chain_code,
    {
        self.chain_code
    }

    /// The number of derivations between the master key and this key.
    pub fn depth(&self) -> (r: u8)
        ensures
            r == self@.depth,
    {
        self.depth
    }

    /// The fingerprint of the parent; four zero bytes for a master key.
    pub fn parent_fingerprint(&self) -> (r: [u8; 4])
        ensures
            r@ == self@.parent_fingerprint,
    {
        self.parent_fingerprint
    }

    /// The raw index at which this key was derived; zero for a master key.
    pub fn child_index(&self) -> (r: u32)
        ensures
            r == self@.child_index,
    {
        self.child_index
    }

    /// The text form of the key: base 58 with a checksum of four bytes.
    pub fn serialize(&self) -> (r: String)
        requires
            self.wf(),
        ensures
            r@ == xpriv_base58(self@),
    {
        xpriv_to_text(self)
    }

    /// Reads a key from its text form. Fails with `InvalidEncoding` where
    /// the text spells no key; a text of fewer than 82 characters never
    /// does.
    pub fn deserialize(text: &str) -> (r: Result<ExtendedPrivateKey, WalletError>)
        ensures
            match r {
                Ok(k) => text@.len() >= MIN_SERIALIZED_LEN && xpriv_from_base58(text@) == Some(
                    k@,
                ) && k.wf(),
                Err(e) => e == WalletError::InvalidEncoding && (text@.len() < MIN_SERIALIZED_LEN
                    || xpriv_from_base58(text@) is None),
            },
    {
        if text.unicode_len() < MIN_SERIALIZED_LEN {
            return Err(WalletError::InvalidEncoding);
        }
        parsed_key(xpriv_from_text(text))
    }
}

/// What is made of the outcome of reading a key: the key, or
/// `InvalidEncoding`.
pub fn parsed_key(outcome: Option<ExtendedPrivateKey>) -> (r: Result<
    ExtendedPrivateKey,
    WalletError,
>)
    ensures
        r == match outcome {
            Some(k) => Ok::<ExtendedPrivateKey, WalletError>(k),
            None => Err::<ExtendedPrivateKey, WalletError>(WalletError::InvalidEncoding),
        },
{
    match outcome {
        Some(k) => Ok(k),
        None => Err(WalletError::InvalidEncoding),
    }
}

/// What is made of the outcome of deriving a master key: the key, or
/// `InvalidChildKey` where the seed has none.
pub fn accept_master(outcome: Option<ExtendedPrivateKey>) -> (r: Result<
    ExtendedPrivateKey,
    WalletError,
>)
    ensures
        r == match outcome {
            Some(k) => Ok::<ExtendedPrivateKey, WalletError>(k),
            None => Err::<ExtendedPrivateKey, WalletError>(WalletError::InvalidChildKey),
        },
{
    match outcome {
        Some(k) => Ok(k),
        None => Err(WalletError::InvalidChildKey),
    }
}

/// What is made of the outcome of deriving a child at the raw index
/// `requested`: the child, where there is one and it was derived at that
/// index; `InvalidChildKey` where there is none or where it was derived at
/// another index.
pub fn accept_child(requested: u32, outcome: Option<ExtendedPrivateKey>) -> (r: Result<
    ExtendedPrivateKey,
    WalletError,
>)
    ensures
        match r {
            Ok(k) => outcome == Some(k) && k@.child_index == requested,
            Err(e) => e == WalletError::InvalidChildKey && (outcome is None
                || outcome.unwrap()@.child_index != requested),
        },
{
    match outcome {
        Some(child) => if child.child_index == requested {
            Ok(child)
        } else {
            Err(WalletError::InvalidChildKey)
        },
        None => Err(WalletError::InvalidChildKey),
    }
}

/// The master key of `seed`. Fails with `InvalidSeedLength` where the seed
/// has fewer than 16 bytes, and with `InvalidChildKey` where it has no
/// master key.
pub fn derive_master(seed: &[u8]) -> (r: Result<ExtendedPrivateKey, WalletError>)
    ensures
        match r {
            Ok(k) => master_key(seed@) == Ok::<ExtendedKeyView, WalletError>(k@) && k.wf(),
            Err(e) => master_key(seed@) == Err::<ExtendedKeyView, WalletError>(e),
        },
{
    if seed.len() < MIN_SEED_LEN {
        return Err(WalletError::InvalidSeedLength);
    }
    accept_master(root_from_seed(seed))
}

/// The index as it is written into a key.
pub fn raw_index_of(step: PathStep) -> (r: u32)
    requires
        step.index < HARDENED_OFFSET,
    ensures
        r == raw_index(step),
{
    if step.hardened {
        step.index + HARDENED_OFFSET
    } else {
        step.index
    }
}

/// The child of `parent` at `index`, hardened or not. Fails with
/// `InvalidChildIndex` where the index is not below 2 to the 31 or is the
/// last hardened one, with `DepthExceeded` where the parent is 255 levels
/// down, and with `InvalidChildKey` where this index has no usable child:
/// the caller may then go on with the next index.
pub fn derive_child(parent: &ExtendedPrivateKey, index: u32, hardened: bool) -> (r: Result<
    ExtendedPrivateKey,
    WalletError,
>)
    requires
        parent.wf(),
    ensures
        match r {
            Ok(k) => child_key(parent@, PathStep { index, hardened }) == Ok::<
                ExtendedKeyView,
                WalletError,
            >(k@) && k.wf(),
            Err(e) => child_key(parent@, PathStep { index, hardened }) == Err::<
                ExtendedKeyView,
                WalletError,
            >(e),
        },
{
    let step = PathStep { index, hardened };
    if index >= HARDENED_OFFSET {
        return Err(WalletError::InvalidChildIndex);
    }
    let raw = raw_index_of(step);
    if raw == u32::MAX {
        return Err(WalletError::InvalidChildIndex);
    }
    if parent.depth == u8::MAX {
        return Err(WalletError::DepthExceeded);
    }
    accept_child(raw, derive_child_raw(parent, raw))
}

/// The descendant of `start` at the end of `path`: the children one after
/// the other, up to the first failure, which is the failure of the whole.
pub fn derive_descendant(start: &ExtendedPrivateKey, path: &[PathStep]) -> (r: Result<
    ExtendedPrivateKey,
    WalletError,
>)
    requires
        start.wf(),
    ensures
        match r {
            Ok(k) => descendant_key(start@, path@) == Ok::<ExtendedKeyView, WalletError>(k@)
                && k.wf(),
            Err(e) => descendant_key(start@, path@) == Err::<ExtendedKeyView, WalletError>(e),
        },
{
    let mut current = *start;
    let mut i: usize = 0;
    assert(path@.skip(0) =~= path@);
    while i < path.len()
        invariant
            i <= path.len(),
            current.wf(),
            descendant_key(start@, path@) == descendant_key(current@, path@.skip(i as int)),
        decreases path.len() - i,
    {
        let step = path[i];
        proof {
            assert(path@.skip(i as int).first() == step);
            assert(path@.skip(i as int).drop_first() =~= path@.skip(i + 1));
        }
        match derive_child(&current, step.index, step.hardened) {
            Ok(child) => {
                current = child;
            },
            Err(e) => {
                return Err(e);
            },
        }
        i += 1;
    }
    Ok(current)
}

/// The key at the end of `path` below the master key of `seed`.
pub fn derive_path(seed: &[u8], path: &[PathStep]) -> (r: Result<
    ExtendedPrivateKey,
    WalletError,
>)
    ensures
        match r {
            Ok(k) => path_key(seed@, path@) == Ok::<ExtendedKeyView, WalletError>(k@) && k.wf(),
            Err(e) => path_key(seed@, path@) == Err::<ExtendedKeyView, WalletError>(e),
        },
{
    match derive_master(seed) {
        Ok(master) => derive_descendant(&master, path),
        Err(e) => Err(e),
    }
}

/// The default path `m/44'/60'/0'/0/index`.
pub fn default_path(index: u32) -> (path: Vec<PathStep>)
    ensures
        path@ == default_path_to(index),
{
    let mut path: Vec<PathStep> = Vec::new();
    path.push(PathStep { index: DEFAULT_PURPOSE, hardened: true });
    path.push(PathStep { index: DEFAULT_COIN_TYPE, hardened: true });
    path.push(PathStep { index: DEFAULT_ACCOUNT, hardened: true });
    path.push(PathStep { index: DEFAULT_CHANGE, hardened: false });
    path.push(PathStep { index, hardened: false });
    assert(path@ =~= default_path_to(index));
    path
}

/// Derivation is a function of its inputs: two keys that are each the
/// outcome of deriving along one path from one seed are the same key.
pub proof fn law_derivation_is_deterministic(
    seed: Seq<u8>,
    path: Seq<PathStep>,
    first: ExtendedKeyView,
    second: ExtendedKeyView,
)
    requires
        path_key(seed, path) == Ok::<ExtendedKeyView, WalletError>(first),
        path_key(seed, path) == Ok::<ExtendedKeyView, WalletError>(second),
    ensures
        first == second,
{
}

} // verus!
