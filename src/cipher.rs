//! Encrypted values: tfhe's 8-bit ciphertexts, each tied to the key pair that
//! made it, and evaluated under that pair's server key, which every operation
//! receives explicitly.
//!
//! The contracts below take tfhe's results as exact. tfhe's parameters make a
//! wrong bootstrapped result negligibly likely, not impossible.
use vstd::prelude::*;

use crate::model::{all_fit, ind, plains, wrap};
use crate::value::Comparable;

verus! {

/// A client key and the server key generated with it.
#[verifier::external_body]
pub struct KeyPair {
    client: tfhe::ClientKey,
    server: tfhe::ServerKey,
}

/// An encrypted byte. tfhe's `FheUint<Id>` is bounded by a trait that tfhe
/// does not export, so the ciphertext is held in a field hidden from Verus.
#[verifier::external_body]
pub struct Cipher {
    c: tfhe::FheUint8,
}

/// The identity of a key pair.
pub uninterp spec fn pair_id(k: KeyPair) -> int;

/// The identity of the key pair that a ciphertext belongs to.
pub uninterp spec fn cipher_pair(c: Cipher) -> int;

/// The plaintext of a ciphertext under the key pair it belongs to.
pub uninterp spec fn plain_of(c: Cipher) -> u8;

impl KeyPair {
    /// Relies on tfhe's `generate_keys` with the default configuration: a
    /// fresh client key and its server key. Nothing is promised of them.
    #[verifier::external_body]
    pub fn generate() -> (r: KeyPair) {
        let (client, server) = tfhe::generate_keys(tfhe::ConfigBuilder::default().build());
        KeyPair { client, server }
    }
}

/// Relies on tfhe's `FheUint8::encrypt_trivial`: a trivial encryption holds
/// the given value. Installs the pair's server key as the thread's key, which
/// tfhe's operations read.
#[verifier::external_body]
fn cipher_trivial(k: &KeyPair, v: u8) -> (r: Cipher)
    ensures
        plain_of(r) == v,
        cipher_pair(r) == pair_id(*k),
{
    tfhe::set_server_key(k.server.clone());
    Cipher { c: <tfhe::FheUint8 as tfhe::prelude::FheTrivialEncrypt<u8>>::encrypt_trivial(v) }
}

/// Relies on tfhe's `FheOrd::gt` and on `CastFrom<FheBool>`: the encrypted
/// comparison, cast to 0/1, under the pair's server key (installed as the
/// thread's key).
#[verifier::external_body]
fn cipher_gt(k: &KeyPair, a: &Cipher, b: &Cipher) -> (r: Cipher)
    requires
        cipher_pair(*a) == pair_id(*k),
        cipher_pair(*b) == pair_id(*k),
    ensures
        plain_of(r) == ind(plain_of(*a) > plain_of(*b)),
        cipher_pair(r) == pair_id(*k),
{
    tfhe::set_server_key(k.server.clone());
    let z = tfhe::prelude::FheOrd::gt(&a.c, &b.c);
    Cipher { c: <tfhe::FheUint8 as tfhe::prelude::CastFrom<tfhe::FheBool>>::cast_from(z) }
}

/// Relies on tfhe's `FheEq<u8>::eq` and on `CastFrom<FheBool>`: the encrypted
/// equality with a clear value, cast to 0/1, under the pair's server key
/// (installed as the thread's key).
#[verifier::external_body]
fn cipher_eq(k: &KeyPair, a: &Cipher, v: u8) -> (r: Cipher)
    requires
        cipher_pair(*a) == pair_id(*k),
    ensures
        plain_of(r) == ind(plain_of(*a) == v),
        cipher_pair(r) == pair_id(*k),
{
    tfhe::set_server_key(k.server.clone());
    let z = tfhe::prelude::FheEq::eq(&a.c, v);
    Cipher { c: <tfhe::FheUint8 as tfhe::prelude::CastFrom<tfhe::FheBool>>::cast_from(z) }
}

/// Relies on tfhe's `Add` on `&FheUint8`, which wraps modulo 256, under the
/// pair's server key (installed as the thread's key).
#[verifier::external_body]
fn cipher_add(k: &KeyPair, a: &Cipher, b: &Cipher) -> (r: Cipher)
    requires
        cipher_pair(*a) == pair_id(*k),
        cipher_pair(*b) == pair_id(*k),
    ensures
        plain_of(r) == wrap(plain_of(*a) + plain_of(*b)),
        cipher_pair(r) == pair_id(*k),
{
    tfhe::set_server_key(k.server.clone());
    Cipher { c: &a.c + &b.c }
}

/// Relies on tfhe's `Sub` on `&FheUint8`, which wraps modulo 256, under the
/// pair's server key (installed as the thread's key).
#[verifier::external_body]
fn cipher_sub(k: &KeyPair, a: &Cipher, b: &Cipher) -> (r: Cipher)
    requires
        cipher_pair(*a) == pair_id(*k),
        cipher_pair(*b) == pair_id(*k),
    ensures
        plain_of(r) == wrap(plain_of(*a) - plain_of(*b)),
        cipher_pair(r) == pair_id(*k),
{
    tfhe::set_server_key(k.server.clone());
    Cipher { c: &a.c - &b.c }
}

/// Relies on tfhe's `Mul` on `&FheUint8`, which wraps modulo 256, under the
/// pair's server key (installed as the thread's key).
#[verifier::external_body]
fn cipher_mul(k: &KeyPair, a: &Cipher, b: &Cipher) -> (r: Cipher)
    requires
        cipher_pair(*a) == pair_id(*k),
        cipher_pair(*b) == pair_id(*k),
    ensures
        plain_of(r) == wrap(plain_of(*a) * plain_of(*b)),
        cipher_pair(r) == pair_id(*k),
{
    tfhe::set_server_key(k.server.clone());
    Cipher { c: &a.c * &b.c }
}

/// Relies on tfhe's `FheEncrypt<u8, ClientKey>::encrypt`: the ciphertext
/// holds the value under the pair's client key.
#[verifier::external_body]
fn cipher_encrypt(k: &KeyPair, v: u8) -> (r: Cipher)
    ensures
        plain_of(r) == v,
        cipher_pair(r) == pair_id(*k),
{
    Cipher {
        c: <tfhe::FheUint8 as tfhe::prelude::FheEncrypt<u8, tfhe::ClientKey>>::encrypt(
            v,
            &k.client,
        ),
    }
}

/// Relies on tfhe's `FheDecrypt<u8>::decrypt`: a ciphertext of the pair
/// decrypts under the pair's client key to what it holds.
#[verifier::external_body]
fn cipher_decrypt(k: &KeyPair, c: &Cipher) -> (r: u8)
    requires
        cipher_pair(*c) == pair_id(*k),
    ensures
        r == plain_of(*c),
{
    tfhe::prelude::FheDecrypt::decrypt(&c.c, &k.client)
}

impl Comparable for Cipher {
    type Context = KeyPair;

    open spec fn plain(&self) -> u8 {
        plain_of(*self)
    }

    open spec fn fits(&self, ctx: &KeyPair) -> bool {
        cipher_pair(*self) == pair_id(*ctx)
    }

    fn trivial(ctx: &KeyPair, v: u8) -> (r: Cipher) {
        cipher_trivial(ctx, v)
    }

    fn greater(&self, ctx: &KeyPair, o: &Cipher) -> (r: Cipher) {
        cipher_gt(ctx, self, o)
    }

    fn equals(&self, ctx: &KeyPair, v: u8) -> (r: Cipher) {
        cipher_eq(ctx, self, v)
    }

    fn plus(&self, ctx: &KeyPair, o: &Cipher) -> (r: Cipher) {
        cipher_add(ctx, self, o)
    }

    fn minus(&self, ctx: &KeyPair, o: &Cipher) -> (r: Cipher) {
        cipher_sub(ctx, self, o)
    }

    fn times(&self, ctx: &KeyPair, o: &Cipher) -> (r: Cipher) {
        cipher_mul(ctx, self, o)
    }
}

/// Encrypts each byte under the pair's client key.
pub fn encrypt_array(data: &[u8], keys: &KeyPair) -> (out: Vec<Cipher>)
    ensures
        all_fit(out@, keys),
        plains(out@) == data@,
{
    let mut out: Vec<Cipher> = Vec::new();
    let mut k: usize = 0;
    while k < data.len()
        invariant
            k <= data@.len(),
            out@.len() == k,
            forall|q: int| 0 <= q < k ==> cipher_pair(#[trigger] out@[q]) == pair_id(*keys),
            forall|q: int| 0 <= q < k ==> plain_of(#[trigger] out@[q]) == data@[q],
        decreases data@.len() - k,
    {
        out.push(cipher_encrypt(keys, data[k]));
        k = k + 1;
    }
    assert(plains(out@) =~= data@);
    out
}

/// Decrypts each ciphertext of the pair under its client key.
pub fn decrypt_array(data: &[Cipher], keys: &KeyPair) -> (out: Vec<u8>)
    requires
        all_fit(data@, keys),
    ensures
        out@ == plains(data@),
{
    let mut out: Vec<u8> = Vec::new();
    let mut k: usize = 0;
    while k < data.len()
        invariant
            k <= data@.len(),
            all_fit(data@, keys),
            out@.len() == k,
            forall|q: int| 0 <= q < k ==> out@[q] == plain_of(#[trigger] data@[q]),
        decreases data@.len() - k,
    {
        out.push(cipher_decrypt(keys, &data[k]));
        k = k + 1;
    }
    assert(out@ =~= plains(data@));
    out
}

} // verus!
