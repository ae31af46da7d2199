//! The decisions of the API-key store: a keychain first, a plaintext file
//! of keys second, and the migration of file entries into the keychain.
//! Talking to the keychain and reading or writing the file are the
//! caller's; each function here takes what those returned.

use vstd::prelude::*;
use crate::assoc::{assoc_get, copy_string, insert_str, opt_view, position_str, remove_str, sorted_insert, sorted_remove, str_pairs};
use crate::text::to_string;

verus! {

/// What a key lookup answers.
pub enum KeyLookup {
    /// No key: the empty string.
    Absent,
    /// The keychain's key.
    Keychain(String),
    /// A key found only in the file; the caller moves it into the keychain
    /// and, when that succeeds, rewrites the file without it.
    File(String),
}

/// The key for `credential`: none for an empty name; else the keychain's
/// entry; else a non-empty entry of the file.
pub open spec fn lookup_spec(credential: Seq<char>, keychain: Option<Seq<char>>, file: Seq<(Seq<char>, Seq<char>)>) -> (
    u8,
    Seq<char>,
) {
    if credential.len() == 0 {
        (0, Seq::empty())
    } else {
        match keychain {
            Some(k) => (1, k),
            None => match assoc_get(file, credential) {
                Some(v) => if v.len() > 0 {
                    (2, v)
                } else {
                    (0, Seq::empty())
                },
                None => (0, Seq::empty()),
            },
        }
    }
}

pub open spec fn lookup_view(r: KeyLookup) -> (u8, Seq<char>) {
    match r {
        KeyLookup::Absent => (0, Seq::empty()),
        KeyLookup::Keychain(k) => (1, k@),
        KeyLookup::File(v) => (2, v@),
    }
}

pub fn lookup_decision(credential: &str, keychain: Option<String>, file: &Vec<(String, String)>) -> (r: KeyLookup)
    ensures
        lookup_view(r) == lookup_spec(credential@, opt_view(keychain), str_pairs(file@)),
{
    if credential.is_empty() {
        return KeyLookup::Absent;
    }
    match keychain {
        Some(k) => KeyLookup::Keychain(k),
        None => match position_str(file, credential) {
            Some(i) => if file[i].1.as_str().is_empty() {
                KeyLookup::Absent
            } else {
                KeyLookup::File(copy_string(&file[i].1))
            },
            None => KeyLookup::Absent,
        },
    }
}

/// What storing a key does: nothing for an empty name; an empty value
/// deletes the key from both stores; any other value is stored.
pub enum StorePlan {
    Nothing,
    Delete,
    Store,
}

pub fn store_plan(credential: &str, value: &str) -> (r: StorePlan)
    ensures
        r is Nothing <==> credential@.len() == 0,
        r is Delete <==> credential@.len() > 0 && value@.len() == 0,
        r is Store <==> credential@.len() > 0 && value@.len() > 0,
{
    if credential.is_empty() {
        StorePlan::Nothing
    } else if value.is_empty() {
        StorePlan::Delete
    } else {
        StorePlan::Store
    }
}

/// The file's new contents once `credential` has left it, or `None` when
/// it held no entry for it (the file is then not rewritten).
pub fn file_without(file: &Vec<(String, String)>, credential: &str) -> (r: Option<Vec<(String, String)>>)
    ensures
        match r {
            Some(f) => assoc_get(str_pairs(file@), credential@) is Some && str_pairs(f@) == sorted_remove(
                str_pairs(file@),
                credential@,
            ),
            None => assoc_get(str_pairs(file@), credential@) is None,
        },
{
    match position_str(file, credential) {
        Some(_) => {
            let mut f = copy_pairs(file);
            remove_str(&mut f, credential);
            Some(f)
        },
        None => None,
    }
}

fn copy_pairs(m: &Vec<(String, String)>) -> (r: Vec<(String, String)>)
    ensures
        str_pairs(r@) == str_pairs(m@),
{
    let mut out: Vec<(String, String)> = Vec::new();
    let mut i: usize = 0;
    while i < m.len()
        invariant
            i <= m@.len(),
            out@.len() == i,
            forall|j: int| 0 <= j < i ==> #[trigger] out@[j].0@ == m@[j].0@ && out@[j].1@ == m@[j].1@,
        decreases m.len() - i,
    {
        out.push((copy_string(&m[i].0), copy_string(&m[i].1)));
        i += 1;
    }
    assert(str_pairs(out@) =~= str_pairs(m@));
    out
}

/// The file's new contents after storing `value` under `credential`, given
/// whether the keychain took it: when it did not, the file keeps the key;
/// when it did, any plaintext copy leaves the file. `None`: no rewrite.
pub fn file_after_store(file: &Vec<(String, String)>, credential: &str, value: &str, keychain_ok: bool) -> (r: Option<
    Vec<(String, String)>,
>)
    ensures
        !keychain_ok ==> (r matches Some(f) && str_pairs(f@) == sorted_insert(str_pairs(file@), credential@, value@)),
        keychain_ok ==> match r {
            Some(f) => assoc_get(str_pairs(file@), credential@) is Some && str_pairs(f@) == sorted_remove(
                str_pairs(file@),
                credential@,
            ),
            None => assoc_get(str_pairs(file@), credential@) is None,
        },
{
    if !keychain_ok {
        let mut f = copy_pairs(file);
        insert_str(&mut f, to_string(credential), to_string(value));
        Some(f)
    } else {
        file_without(file, credential)
    }
}

/// Where `load_api_keys` takes a credential's key from.
pub enum LoadSource {
    /// No key anywhere: the credential is left out.
    Skip,
    Keychain(String),
    /// From the file; the caller moves it into the keychain.
    File(String),
    /// From the settings' own map; the caller stores it.
    Legacy(String),
}

pub open spec fn load_spec(
    credential: Seq<char>,
    keychain: Option<Seq<char>>,
    file: Seq<(Seq<char>, Seq<char>)>,
    legacy: Option<Seq<char>>,
) -> (u8, Seq<char>) {
    match keychain {
        Some(k) if k.len() > 0 => (1, k),
        _ => match assoc_get(file, credential) {
            Some(v) if v.len() > 0 => (2, v),
            _ => match legacy {
                Some(l) if l.len() > 0 => (3, l),
                _ => (0, Seq::empty()),
            },
        },
    }
}

pub open spec fn load_view(r: LoadSource) -> (u8, Seq<char>) {
    match r {
        LoadSource::Skip => (0, Seq::empty()),
        LoadSource::Keychain(k) => (1, k@),
        LoadSource::File(v) => (2, v@),
        LoadSource::Legacy(l) => (3, l@),
    }
}

/// A non-empty keychain entry first, then a non-empty file entry, then a
/// non-empty key of the settings' own map.
pub fn load_decision(
    credential: &str,
    keychain: Option<String>,
    file: &Vec<(String, String)>,
    legacy: Option<String>,
) -> (r: LoadSource)
    ensures
        load_view(r) == load_spec(credential@, opt_view(keychain), str_pairs(file@), opt_view(legacy)),
{
    if let Some(k) = keychain {
        if !k.as_str().is_empty() {
            return LoadSource::Keychain(k);
        }
    }
    if let Some(i) = position_str(file, credential) {
        if !file[i].1.as_str().is_empty() {
            return LoadSource::File(copy_string(&file[i].1));
        }
    }
    match legacy {
        Some(l) => if l.as_str().is_empty() {
            LoadSource::Skip
        } else {
            LoadSource::Legacy(l)
        },
        None => LoadSource::Skip,
    }
}

} // verus!
