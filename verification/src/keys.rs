//! Random values and the one-time keys of a direct copy between two servers.
use vstd::prelude::*;
use vstd::string::*;

use crate::text::{hex_of, hex_string};

verus! {

/// Fills a buffer from the system's random source with `getrandom::getrandom`, which fails where
/// the source does and never for an empty buffer. Nothing is known of the bytes but their number.
#[verifier::external_body]
fn random_bytes(n: usize) -> (r: Option<Vec<u8>>)
    ensures
        r is Some ==> r->0@.len() == n,
        n == 0 ==> r is Some,
{
    let mut bytes = vec![0u8; n];
    match getrandom::getrandom(&mut bytes) {
        Ok(()) => Some(bytes),
        Err(_) => None,
    }
}

/// The private key that `ssh_key` writes for an Ed25519 seed and a comment, or why it cannot.
pub uninterp spec fn openssh_private_key(
    seed: Seq<u8>,
    comment: Seq<char>,
) -> Result<Seq<u8>, Seq<char>>;

/// The public key line that `ssh_key` writes for an Ed25519 seed and a comment, or why it cannot.
pub uninterp spec fn openssh_public_key(
    seed: Seq<u8>,
    comment: Seq<char>,
) -> Result<Seq<char>, Seq<char>>;

/// Writes the unencrypted private key of a seed in OpenSSH's format with line feeds, by
/// `ssh_key::PrivateKey::to_openssh`. The result depends on the seed and the comment alone.
#[verifier::external_body]
fn private_key_pem(seed: &Vec<u8>, comment: &str) -> (r: Result<Vec<u8>, String>)
    requires
        seed@.len() == 32,
    ensures
        match r {
            Ok(pem) => openssh_private_key(seed@, comment@) == Ok::<Seq<u8>, Seq<char>>(pem@),
            Err(e) => openssh_private_key(seed@, comment@) == Err::<Seq<u8>, Seq<char>>(e@),
        },
{
    let mut bytes = [0u8; 32];
    bytes.copy_from_slice(seed);
    let pair = russh::keys::ssh_key::private::Ed25519Keypair::from_seed(&bytes);
    let mut key = russh::keys::ssh_key::PrivateKey::from(pair);
    key.set_comment(comment);
    match key.to_openssh(russh::keys::ssh_key::LineEnding::LF) {
        Ok(pem) => Ok(pem.as_bytes().to_vec()),
        Err(e) => Err(e.to_string()),
    }
}

/// Writes the public key line of a seed, by `ssh_key::PublicKey::to_openssh`. The result depends on
/// the seed and the comment alone.
#[verifier::external_body]
fn public_key_line(seed: &Vec<u8>, comment: &str) -> (r: Result<String, String>)
    requires
        seed@.len() == 32,
    ensures
        match r {
            Ok(line) => openssh_public_key(seed@, comment@) == Ok::<Seq<char>, Seq<char>>(line@),
            Err(e) => openssh_public_key(seed@, comment@) == Err::<Seq<char>, Seq<char>>(e@),
        },
{
    let mut bytes = [0u8; 32];
    bytes.copy_from_slice(seed);
    let pair = russh::keys::ssh_key::private::Ed25519Keypair::from_seed(&bytes);
    let mut key = russh::keys::ssh_key::PrivateKey::from(pair);
    key.set_comment(comment);
    key.public_key().to_openssh().map_err(|e| e.to_string())
}

/// The line for `authorized_keys`: `restrict` keeps the key from doing more than moving files.
pub open spec fn restricted(line: Seq<char>) -> Seq<char> {
    "restrict "@ + line
}

/// Writes the line for `authorized_keys`.
pub fn restricted_key_line(line: &str) -> (r: String)
    ensures
        r@ == restricted(line@),
{
    let mut s = "restrict ".to_owned();
    s.append(line);
    s
}

/// The key pair of a seed: the private key, and the line that lets it in on the other side.
pub open spec fn keypair_of(seed: Seq<u8>, marker: Seq<char>) -> Result<
    (Seq<u8>, Seq<char>),
    Seq<char>,
> {
    match openssh_private_key(seed, marker) {
        Err(e) => Err(e),
        Ok(pem) => match openssh_public_key(seed, marker) {
            Err(e) => Err(e),
            Ok(line) => Ok((pem, restricted(line))),
        },
    }
}

/// Writes the key pair of a seed.
pub fn temp_keypair(seed: &Vec<u8>, marker: &str) -> (r: Result<(Vec<u8>, String), String>)
    requires
        seed@.len() == 32,
    ensures
        match r {
            Ok((pem, line)) => keypair_of(seed@, marker@) == Ok::<(Seq<u8>, Seq<char>), Seq<char>>(
                (pem@, line@),
            ),
            Err(e) => keypair_of(seed@, marker@) == Err::<(Seq<u8>, Seq<char>), Seq<char>>(e@),
        },
{
    let pem = match private_key_pem(seed, marker) {
        Ok(pem) => pem,
        Err(e) => {
            return Err(e);
        },
    };
    match public_key_line(seed, marker) {
        Ok(line) => Ok((pem, restricted_key_line(line.as_str()))),
        Err(e) => Err(e),
    }
}

pub const NO_ENTROPY: &'static str = "系统随机数源不可用";

/// A key pair of some seed, or why there is none.
pub open spec fn is_temp_keypair(
    marker: Seq<char>,
    r: Result<(Vec<u8>, String), String>,
) -> bool {
    match r {
        Ok((pem, line)) => exists|seed: Seq<u8>|
            seed.len() == 32 && #[trigger] keypair_of(seed, marker) == Ok::<
                (Seq<u8>, Seq<char>),
                Seq<char>,
            >((pem@, line@)),
        Err(e) => e@ == NO_ENTROPY@ || exists|seed: Seq<u8>|
            seed.len() == 32 && #[trigger] keypair_of(seed, marker) == Err::<
                (Seq<u8>, Seq<char>),
                Seq<char>,
            >(e@),
    }
}

/// The four low bytes of a number, lowest first.
pub open spec fn low_bytes(seed: u64) -> Seq<u8> {
    seq![
        (seed % 256) as u8,
        (seed / 256 % 256) as u8,
        (seed / 65536 % 256) as u8,
        (seed / 16777216 % 256) as u8,
    ]
}

/// The suffix of a marker from what the random source gave: its bytes in hexadecimal, or those of
/// `fallback` where it failed.
pub fn marker_suffix(random: Option<Vec<u8>>, fallback: u64) -> (r: String)
    ensures
        r@ == hex_of(
            match random {
                Some(b) => b@,
                None => low_bytes(fallback),
            },
        ),
{
    match random {
        Some(b) => hex_string(b.as_slice()),
        None => {
            let mut b: Vec<u8> = Vec::new();
            b.push((fallback % 256) as u8);
            b.push((fallback / 256 % 256) as u8);
            b.push((fallback / 65536 % 256) as u8);
            b.push((fallback / 16777216 % 256) as u8);
            assert(b@ =~= low_bytes(fallback));
            hex_string(b.as_slice())
        },
    }
}

/// Four bytes in hexadecimal.
pub open spec fn is_marker_suffix(s: Seq<char>) -> bool {
    exists|b: Seq<u8>| b.len() == 4 && s == #[trigger] hex_of(b)
}

/// A short suffix that keeps the markers of two copies apart: four random bytes in hexadecimal, or
/// those of `fallback` where the random source fails.
pub fn rand_marker_suffix(fallback: u64) -> (r: String)
    ensures
        is_marker_suffix(r@),
{
    marker_suffix(random_bytes(4), fallback)
}

/// The random part of a temporary directory's name from what the random source gave: its bytes in
/// hexadecimal, zeros where it failed.
pub fn dir_suffix(random: Option<Vec<u8>>) -> (r: String)
    ensures
        r@ == hex_of(
            match random {
                Some(b) => b@,
                None => seq![0u8, 0, 0, 0, 0, 0, 0, 0],
            },
        ),
{
    match random {
        Some(b) => hex_string(b.as_slice()),
        None => {
            let b: Vec<u8> = vec![0u8; 8];
            assert(b@ =~= seq![0u8, 0, 0, 0, 0, 0, 0, 0]);
            hex_string(b.as_slice())
        },
    }
}

/// The random part of a temporary directory's name: eight random bytes in hexadecimal, zeros where
/// the random source fails.
pub fn rand_dir_suffix() -> (r: String)
    ensures
        exists|b: Seq<u8>| b.len() == 8 && r@ == #[trigger] hex_of(b),
{
    dir_suffix(random_bytes(8))
}

/// A number from what the random source gave: its bytes in hexadecimal, `None` where it failed.
pub fn nonce_from(random: Option<Vec<u8>>) -> (r: Option<String>)
    ensures
        match r {
            Some(s) => random is Some && s@ == hex_of(random->0@),
            None => random is None,
        },
{
    match random {
        Some(b) => Some(hex_string(b.as_slice())),
        None => None,
    }
}

/// A fresh 32-byte number in hexadecimal, `None` where the random source fails: a predictable one
/// is never made up.
pub fn pair_nonce() -> (r: Option<String>)
    ensures
        r is Some ==> exists|b: Seq<u8>| b.len() == 32 && r->0@ == #[trigger] hex_of(b),
{
    nonce_from(random_bytes(32))
}

/// A key pair from what the random source gave; without a seed there is none.
pub fn keypair_from(seed: Option<Vec<u8>>, marker: &str) -> (r: Result<(Vec<u8>, String), String>)
    requires
        seed is Some ==> seed->0@.len() == 32,
    ensures
        match seed {
            Some(s) => match r {
                Ok((pem, line)) => keypair_of(s@, marker@) == Ok::<
                    (Seq<u8>, Seq<char>),
                    Seq<char>,
                >((pem@, line@)),
                Err(e) => keypair_of(s@, marker@) == Err::<(Seq<u8>, Seq<char>), Seq<char>>(e@),
            },
            None => r is Err && r->Err_0@ == NO_ENTROPY@,
        },
{
    match seed {
        Some(s) => temp_keypair(&s, marker),
        None => Err(NO_ENTROPY.to_owned()),
    }
}

/// Makes a key pair for one direct copy from a random seed. The marker is the comment of the key,
/// by which it is found again to be revoked.
pub fn generate_temp_keypair(marker: &str) -> (r: Result<(Vec<u8>, String), String>)
    ensures
        is_temp_keypair(marker@, r),
{
    keypair_from(random_bytes(32), marker)
}

} // verus!
