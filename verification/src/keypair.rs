//! Account keypairs as they are stored in the client's keypair file.
//! Reading, decrypting and writing that file belong to the surrounding
//! program; this module holds the lookup logic.

use vstd::prelude::*;

verus! {

/// One stored keypair: its name and the Base64URL texts of its keys.
pub struct KeypairJSON {
    pub name: String,
    pub private_key: String,
    pub public_key: String,
    pub keypair: String,
}

/// The first keypair in the list with the given name, if any.
pub open spec fn find_keypair(s: Seq<KeypairJSON>, name: Seq<char>) -> Option<KeypairJSON>
    decreases s.len(),
{
    if s.len() == 0 {
        None
    } else if s[0].name@ == name {
        Some(s[0])
    } else {
        find_keypair(s.drop_first(), name)
    }
}

fn keypair_copy(kp: &KeypairJSON) -> (r: KeypairJSON)
    ensures
        r == *kp,
{
    KeypairJSON {
        name: kp.name.clone(),
        private_key: kp.private_key.clone(),
        public_key: kp.public_key.clone(),
        keypair: kp.keypair.clone(),
    }
}

/// Finds the named keypair among the loaded ones.
pub fn get_keypair_from_json(keypairs: &Vec<KeypairJSON>, keypair_name: &str) -> (r: Option<
    KeypairJSON,
>)
    ensures
        r == find_keypair(keypairs@, keypair_name@),
{
    let nm = crate::text::str_to_chars(keypair_name);
    let mut i: usize = 0;
    proof {
        assert(keypairs@.subrange(0, keypairs@.len() as int) =~= keypairs@);
    }
    while i < keypairs.len()
        invariant
            i <= keypairs@.len(),
            find_keypair(keypairs@, keypair_name@) == find_keypair(
                keypairs@.subrange(i as int, keypairs@.len() as int),
                keypair_name@,
            ),
            nm@ == keypair_name@,
        decreases keypairs@.len() - i,
    {
        proof {
            let rest = keypairs@.subrange(i as int, keypairs@.len() as int);
            assert(rest[0] == keypairs@[i as int]);
            assert(rest.drop_first() =~= keypairs@.subrange(
                i as int + 1,
                keypairs@.len() as int,
            ));
        }
        let kn = crate::text::str_to_chars(keypairs[i].name.as_str());
        if crate::typedesc::seq_eq(&kn, &nm) {
            return Some(keypair_copy(&keypairs[i]));
        }
        i = i + 1;
    }
    proof {
        assert(keypairs@.subrange(keypairs@.len() as int, keypairs@.len() as int).len() == 0);
    }
    None
}

/// Appends a new keypair unless one with its name is already stored:
/// `true` exactly when it was added.
pub fn append_keypair(keypairs: &mut Vec<KeypairJSON>, new_keypair: KeypairJSON) -> (r: bool)
    ensures
        r == (find_keypair(old(keypairs)@, new_keypair.name@) is None),
        r ==> final(keypairs)@ == old(keypairs)@.push(new_keypair),
        !r ==> final(keypairs)@ == old(keypairs)@,
{
    match get_keypair_from_json(keypairs, new_keypair.name.as_str()) {
        Some(_) => false,
        None => {
            keypairs.push(new_keypair);
            true
        }
    }
}

} // verus!
