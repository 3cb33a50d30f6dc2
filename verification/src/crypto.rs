//! Wallet keys: where a user's secret key is stored, how a stored key is
//! read back, and the public key that goes with it.
use vstd::prelude::*;
use vstd::string::StringExecFns;
use crate::signing::{fresh_secret_key, public_key_of, spec_key_decompresses, spec_public_key_of};

verus! {

/// What reading a key file gave.
#[derive(Debug)]
pub enum KeyFile {
    /// There is no such file.
    Missing,
    /// The file exists but could not be read, for this reason.
    Unreadable(String),
    Contents(Vec<u8>),
}

/// A new wallet: where to store it, the secret key to store, and the public key.
#[derive(Debug)]
pub struct KeySetup {
    pub path: String,
    pub secret: [u8; 32],
    pub public: [u8; 32],
}

pub open spec fn spec_key_path(name: Seq<char>) -> Seq<char> {
    name + ".key"@
}

pub open spec fn spec_missing_message(name: Seq<char>) -> Seq<char> {
    "No wallet found for '"@ + name + "'. Did you build your profile?"@
}

pub open spec fn spec_unreadable_message(reason: Seq<char>) -> Seq<char> {
    "Failed to read key file: "@ + reason
}

pub open spec fn spec_corrupted_message() -> Seq<char> {
    "Key File is corrupted (not 32 bytes)"@
}

/// The secret key read from a key file, or the message refusing it.
pub open spec fn spec_read_key(name: Seq<char>, file: KeyFile) -> Result<Seq<u8>, Seq<char>> {
    match file {
        KeyFile::Missing => Err(spec_missing_message(name)),
        KeyFile::Unreadable(reason) => Err(spec_unreadable_message(reason@)),
        KeyFile::Contents(bytes) => if bytes@.len() == 32 {
            Ok(bytes@)
        } else {
            Err(spec_corrupted_message())
        },
    }
}

/// The public key that goes with the key read from a key file, or the
/// message refusing the file.
pub open spec fn spec_read_public_key(name: Seq<char>, file: KeyFile) -> Result<Seq<u8>, Seq<char>> {
    match spec_read_key(name, file) {
        Ok(secret) => Ok(spec_public_key_of(secret)),
        Err(m) => Err(m),
    }
}

/// The file a user's secret key is stored in: the name followed by `.key`.
pub fn key_file_path(name: &str) -> (p: String)
    ensures
        p@ == spec_key_path(name@),
{
    let mut p = name.to_owned();
    p.append(".key");
    p
}

/// A new wallet for `name`, with a fresh random secret key; `None` when no
/// randomness could be had.
pub fn setup(name: &str) -> (r: Option<KeySetup>)
    ensures
        r matches Some(k) ==> {
            &&& k.path@ == spec_key_path(name@)
            &&& k.public@ == spec_public_key_of(k.secret@)
            &&& spec_key_decompresses(k.public@)
        },
{
    let secret = fresh_secret_key()?;
    let public = public_key_of(&secret);
    Some(KeySetup { path: key_file_path(name), secret, public })
}

/// The secret key stored for `name`, given what reading its file gave: an
/// absent file, an unreadable one, or contents other than 32 bytes are
/// refused with a message saying so.
pub fn load_private_key(name: &str, file: KeyFile) -> (r: Result<[u8; 32], String>)
    ensures
        match r {
            Ok(k) => spec_read_key(name@, file) == Ok::<Seq<u8>, Seq<char>>(k@),
            Err(m) => spec_read_key(name@, file) == Err::<Seq<u8>, Seq<char>>(m@),
        },
{
    match file {
        KeyFile::Missing => {
            let mut m = "No wallet found for '".to_owned();
            m.append(name);
            m.append("'. Did you build your profile?");
            Err(m)
        },
        KeyFile::Unreadable(reason) => {
            let mut m = "Failed to read key file: ".to_owned();
            m.append(reason.as_str());
            Err(m)
        },
        KeyFile::Contents(bytes) => {
            if bytes.len() != 32 {
                return Err("Key File is corrupted (not 32 bytes)".to_owned());
            }
            let mut k = [0u8; 32];
            let mut i: usize = 0;
            while i < 32
                invariant
                    0 <= i <= 32,
                    bytes@.len() == 32,
                    forall|j: int| 0 <= j < i ==> k@[j] == bytes@[j],
                decreases 32 - i,
            {
                k[i] = bytes[i];
                i += 1;
            }
            assert(k@ =~= bytes@);
            Ok(k)
        },
    }
}

/// The public key that goes with the secret key stored for `name`; refused
/// as `load_private_key` refuses.
pub fn load_public_key(name: &str, file: KeyFile) -> (r: Result<[u8; 32], String>)
    ensures
        match r {
            Ok(k) => spec_read_public_key(name@, file) == Ok::<Seq<u8>, Seq<char>>(k@)
                && spec_key_decompresses(k@),
            Err(m) => spec_read_public_key(name@, file) == Err::<Seq<u8>, Seq<char>>(m@),
        },
{
    let secret = load_private_key(name, file)?;
    Ok(public_key_of(&secret))
}

/// A secret key saved to its file loads back unchanged, and with it the
/// public key that was derived when it was made.
pub proof fn law_saved_key_loads_back(name: Seq<char>, k: KeySetup, file: KeyFile)
    requires
        k.public@ == spec_public_key_of(k.secret@),
        file matches KeyFile::Contents(bytes) && bytes@ == k.secret@,
    ensures
        spec_read_key(name, file) == Ok::<Seq<u8>, Seq<char>>(k.secret@),
        spec_read_public_key(name, file) == Ok::<Seq<u8>, Seq<char>>(k.public@),
{
}

} // verus!
