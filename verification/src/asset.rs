//! Asset identities and the registry of eligible counter-assets.
//!
//! Rates are tracked against a fixed reference stablecoin. A claim's
//! counter-asset qualifies only when it is the native asset or appears in
//! the registry's token list, its issuer is not blocklisted, and its code
//! does not collide with the native asset's code.

use vstd::prelude::*;

use crate::text::{bytes_to_string, chars_to_string, decoded_or_placeholder, string_chars,
    string_eq};

verus! {

/// Contract address of the native asset: on the contract platform every
/// asset has a contract address, the native one included.
pub const XLM_ADDRESS: &'static str = "CAS3J7GYLGXMF6TDJBBYYSE3HQ6BBSMLNUQ34T6TZMYMW2EVH34XOWMA";

/// Contract address of the AMM router whose swap events are tracked.
pub const SOROSWAP_ROUTER: &'static str = "CAG5LRYQ5JVEUI5TEID72EYOVX44TTUJT5BQR2J6J77FH65PCCFAJDDH";

/// An asset eligible for rate tracking: its code, its issuer account (the
/// fixed text `Native` for the native asset) and its contract address.
pub struct SwapAsset {
    pub code: String,
    pub issuer: String,
    pub contract: String,
}

/// Ghost image of a [`SwapAsset`]: the three identifying texts.
pub ghost struct SwapAssetView {
    pub code: Seq<char>,
    pub issuer: Seq<char>,
    pub contract: Seq<char>,
}

impl View for SwapAsset {
    type V = SwapAssetView;

    open spec fn view(&self) -> SwapAssetView {
        SwapAssetView { code: self.code@, issuer: self.issuer@, contract: self.contract@ }
    }
}

impl Clone for SwapAsset {
    fn clone(&self) -> (r: Self)
        ensures
            r == *self,
    {
        SwapAsset {
            code: self.code.clone(),
            issuer: self.issuer.clone(),
            contract: self.contract.clone(),
        }
    }
}

/// The fixed data the classifier consults: the reference stablecoin, the
/// native asset, the eligible token list, the issuer blocklist and the AMM
/// router address.
pub struct Registry {
    pub stablecoin: SwapAsset,
    pub native: SwapAsset,
    pub tokens: Vec<SwapAsset>,
    pub scam_addresses: Vec<String>,
    pub router: String,
}

impl Registry {
    /// A registry with the given stablecoin, token list and blocklist, and
    /// the fixed native asset and router addresses.
    pub fn new(stablecoin: SwapAsset, tokens: Vec<SwapAsset>, scam_addresses: Vec<String>) -> (r:
        Registry)
        ensures
            r.stablecoin == stablecoin,
            r.tokens == tokens,
            r.scam_addresses == scam_addresses,
            r.native@.code == "XLM"@,
            r.native@.issuer == "Native"@,
            r.native@.contract == XLM_ADDRESS@,
            r.router@ == SOROSWAP_ROUTER@,
    {
        Registry {
            stablecoin,
            native: SwapAsset {
                code: String::from_str("XLM"),
                issuer: String::from_str("Native"),
                contract: String::from_str(XLM_ADDRESS),
            },
            tokens,
            scam_addresses,
            router: String::from_str(SOROSWAP_ROUTER),
        }
    }
}

/// Whether a character is an ASCII letter.
pub open spec fn is_letter(c: char) -> bool {
    (65 <= c as u32 && c as u32 <= 90) || (97 <= c as u32 && c as u32 <= 122)
}

/// The subsequence of ASCII letters of a character sequence, in order.
pub open spec fn letters_of(s: Seq<char>) -> Seq<char>
    decreases s.len(),
{
    if s.len() == 0 {
        Seq::empty()
    } else if is_letter(s.last()) {
        letters_of(s.drop_last()).push(s.last())
    } else {
        letters_of(s.drop_last())
    }
}

/// The sanitized form of a non-native asset-code byte buffer: the ASCII
/// letters of its decoded text.
pub open spec fn sanitized_code(bytes: Seq<u8>) -> Seq<char> {
    letters_of(decoded_or_placeholder(bytes))
}

/// Sanitizes a non-native asset code: decodes the bytes and keeps only the
/// ASCII letters of the decoded text.
pub fn format_nonnative_asset(asset_code: &Vec<u8>) -> (r: String)
    ensures
        r@ == sanitized_code(asset_code@),
{
    let decoded = bytes_to_string(asset_code);
    let chars = string_chars(&decoded);
    let mut kept: Vec<char> = Vec::new();
    let mut i: usize = 0;
    while i < chars.len()
        invariant
            i <= chars.len(),
            kept@ == letters_of(chars@.take(i as int)),
        decreases chars.len() - i,
    {
        let c = chars[i];
        let u = c as u32;
        proof {
            assert(chars@.take(i + 1).drop_last() =~= chars@.take(i as int));
            assert(chars@.take(i + 1).last() == chars@[i as int]);
        }
        if (65 <= u && u <= 90) || (97 <= u && u <= 122) {
            kept.push(c);
        }
        i = i + 1;
    }
    proof {
        assert(chars@.take(chars@.len() as int) =~= chars@);
    }
    chars_to_string(&kept)
}

/// The strkey text encoding of a 32-byte contract hash; it depends on the
/// bytes alone.
pub uninterp spec fn contract_strkey_of(hash: Seq<u8>) -> Seq<char>;

/// Relies on `stellar_strkey::Contract::to_string`: the strkey encoding of
/// a 32-byte contract hash, a 56-character text determined by the bytes.
#[verifier::external_body]
pub fn hash_to_strkey(hash: &Vec<u8>) -> (r: String)
    requires
        hash@.len() == 32,
    ensures
        r@ == contract_strkey_of(hash@),
        r@.len() == 56,
{
    let mut bytes = [0u8; 32];
    bytes.copy_from_slice(hash);
    stellar_strkey::Contract(bytes).to_string().as_str().to_owned()
}

/// Whether a token entry carries this code and issuer.
pub open spec fn token_matches(t: SwapAsset, code: Seq<char>, issuer: Seq<char>) -> bool {
    t@.code == code && t@.issuer == issuer
}

/// The first token of the list with this code and issuer, if any.
pub open spec fn find_token(tokens: Seq<SwapAsset>, code: Seq<char>, issuer: Seq<char>) -> Option<
    SwapAsset,
>
    decreases tokens.len(),
{
    if tokens.len() == 0 {
        None
    } else if token_matches(tokens[0], code, issuer) {
        Some(tokens[0])
    } else {
        find_token(tokens.drop_first(), code, issuer)
    }
}

/// The first token of the list with this contract address, if any.
pub open spec fn find_token_by_contract(tokens: Seq<SwapAsset>, contract: Seq<char>) -> Option<
    SwapAsset,
>
    decreases tokens.len(),
{
    if tokens.len() == 0 {
        None
    } else if tokens[0]@.contract == contract {
        Some(tokens[0])
    } else {
        find_token_by_contract(tokens.drop_first(), contract)
    }
}

/// Whether a code/issuer pair counts as certified: the native issuer, or a
/// listed token.
pub open spec fn spec_is_certified(tokens: Seq<SwapAsset>, code: Seq<char>, issuer: Seq<char>)
    -> bool {
    issuer == "Native"@ || find_token(tokens, code, issuer) is Some
}

/// Looks a token up by code and issuer, returning the first match.
fn lookup_token(tokens: &Vec<SwapAsset>, code: &String, issuer: &String) -> (r: Option<SwapAsset>)
    ensures
        r == find_token(tokens@, code@, issuer@),
{
    proof {
        assert(tokens@.skip(0) =~= tokens@);
    }
    let mut i: usize = 0;
    while i < tokens.len()
        invariant
            i <= tokens.len(),
            find_token(tokens@, code@, issuer@) == find_token(
                tokens@.skip(i as int),
                code@,
                issuer@,
            ),
        decreases tokens.len() - i,
    {
        proof {
            assert(tokens@.skip(i as int).drop_first() =~= tokens@.skip(i + 1));
            assert(tokens@.skip(i as int)[0] == tokens@[i as int]);
        }
        let t = &tokens[i];
        if string_eq(&t.code, code) && string_eq(&t.issuer, issuer) {
            return Some(t.clone());
        }
        i = i + 1;
    }
    proof {
        assert(tokens@.skip(tokens@.len() as int) =~= Seq::<SwapAsset>::empty());
    }
    None
}

/// Looks a token up by contract address, returning the first match.
fn lookup_token_by_contract(tokens: &Vec<SwapAsset>, contract: &String) -> (r: Option<SwapAsset>)
    ensures
        r == find_token_by_contract(tokens@, contract@),
{
    proof {
        assert(tokens@.skip(0) =~= tokens@);
    }
    let mut i: usize = 0;
    while i < tokens.len()
        invariant
            i <= tokens.len(),
            find_token_by_contract(tokens@, contract@) == find_token_by_contract(
                tokens@.skip(i as int),
                contract@,
            ),
        decreases tokens.len() - i,
    {
        proof {
            assert(tokens@.skip(i as int).drop_first() =~= tokens@.skip(i + 1));
            assert(tokens@.skip(i as int)[0] == tokens@[i as int]);
        }
        let t = &tokens[i];
        if string_eq(&t.contract, contract) {
            return Some(t.clone());
        }
        i = i + 1;
    }
    proof {
        assert(tokens@.skip(tokens@.len() as int) =~= Seq::<SwapAsset>::empty());
    }
    None
}

/// Reports whether an asset is highlighted as certified: the native asset
/// always is, other assets when the registry's token list carries them.
pub fn is_certified_asset(floatcode: &String, fltissuer: &String, registry: &Registry) -> (r: bool)
    ensures
        r == spec_is_certified(registry.tokens@, floatcode@, fltissuer@),
{
    if string_eq(fltissuer, &crate::text::make_string("Native")) {
        true
    } else {
        lookup_token(&registry.tokens, floatcode, fltissuer).is_some()
    }
}

/// Whether a sequence of strings contains this text.
pub open spec fn contains_text(list: Seq<String>, text: Seq<char>) -> bool {
    exists|i: int| 0 <= i < list.len() && list[i]@ == text
}

/// Reports whether an issuer stands on the blocklist.
fn is_blocklisted(scam_addresses: &Vec<String>, issuer: &String) -> (r: bool)
    ensures
        r == contains_text(scam_addresses@, issuer@),
{
    let mut i: usize = 0;
    while i < scam_addresses.len()
        invariant
            i <= scam_addresses.len(),
            forall|j: int| 0 <= j < i ==> scam_addresses@[j]@ != issuer@,
        decreases scam_addresses.len() - i,
    {
        if string_eq(&scam_addresses[i], issuer) {
            return true;
        }
        i = i + 1;
    }
    false
}

/// The token a non-native code/issuer pair resolves to: rejected when the
/// issuer is blocklisted or the sanitized code collides with the native
/// asset's code, otherwise the listed token with that code and issuer.
pub open spec fn spec_build_nonnative(
    registry: Registry,
    code_bytes: Seq<u8>,
    issuer: Seq<char>,
) -> Option<SwapAsset> {
    if contains_text(registry.scam_addresses@, issuer) {
        None
    } else if sanitized_code(code_bytes) == "XLM"@ {
        None
    } else {
        find_token(registry.tokens@, sanitized_code(code_bytes), issuer)
    }
}

/// Resolves a non-native asset code and issuer against the registry,
/// rejecting blocklisted issuers and codes that collide with the native
/// asset's code.
pub fn build_nonnative_swap_asset(
    asset_code: &Vec<u8>,
    issuer: &String,
    registry: &Registry,
) -> (r: Option<SwapAsset>)
    ensures
        r == spec_build_nonnative(*registry, asset_code@, issuer@),
{
    if is_blocklisted(&registry.scam_addresses, issuer) {
        return None;
    }
    let code = format_nonnative_asset(asset_code);
    if string_eq(&code, &crate::text::make_string("XLM")) {
        return None;
    }
    lookup_token(&registry.tokens, &code, issuer)
}

/// The asset a contract address resolves to: the native asset for the
/// native contract, otherwise the listed token with that address.
pub open spec fn spec_asset_of_contract(registry: Registry, contract: Seq<char>) -> Option<
    SwapAsset,
> {
    if contract == registry.native@.contract {
        Some(registry.native)
    } else {
        find_token_by_contract(registry.tokens@, contract)
    }
}

/// Resolves a contract address to the asset it stands for.
pub fn get_swap_asset(contract_address: &String, registry: &Registry) -> (r: Option<SwapAsset>)
    ensures
        r == spec_asset_of_contract(*registry, contract_address@),
{
    if string_eq(contract_address, &registry.native.contract) {
        Some(registry.native.clone())
    } else {
        lookup_token_by_contract(&registry.tokens, contract_address)
    }
}

} // verus!
