//! The name of the single-writer lock over the resource whose grant is shared.
//!
//! The lock is keyed on organization and pool, not on the ledger file or the
//! credential. Two credentials in one organization draw on the same pool, so
//! keying on either of those would let two processes each see a full grant.
use vstd::prelude::*;
use vstd::string::*;
use vstd::utf8::*;

use crate::hwm::{fnv, fnv1a, hex_text, push_hex};
use crate::text::chars_of;

verus! {

/// Characters that may stand in a lock's file name.
pub open spec fn is_plain(c: char) -> bool {
    let code = c as u32;
    48 <= code <= 57 || 65 <= code <= 90 || 97 <= code <= 122 || c == '-' || c == '_'
}

/// A text with every other character replaced by an underscore.
pub open spec fn sanitised(text: Seq<char>) -> Seq<char> {
    Seq::new(
        text.len(),
        |i: int|
            if is_plain(text[i]) {
                text[i]
            } else {
                '_'
            },
    )
}

/// What identifies the shared resource. The separator can occur in neither
/// part.
pub open spec fn identity(organization: Seq<char>, pool_id: Seq<char>) -> Seq<char> {
    organization + "\0"@ + pool_id
}

/// The lock's file name: readable, and told apart by a hash of the identity.
pub open spec fn lock_name(organization: Seq<char>, pool_id: Seq<char>) -> Seq<char> {
    sanitised(organization + "__"@ + pool_id) + "."@ + hex_text(
        fnv(encode_utf8(identity(organization, pool_id))),
    ) + ".lock"@
}

/// A file in a directory.
pub open spec fn joined(dir: Seq<char>, name: Seq<char>) -> Seq<char> {
    if dir.len() == 0 || dir.last() == '/' {
        dir + name
    } else {
        dir + "/"@ + name
    }
}

/// A lock on one organization's pool.
#[derive(Debug)]
pub struct PoolLock {
    path: String,
}

impl PoolLock {
    pub closed spec fn location(&self) -> Seq<char> {
        self.path@
    }

    /// Where the lock of an organization's pool is kept.
    pub fn path_for(lock_dir: &str, organization: &str, pool_id: &str) -> (path: String)
        ensures
            path@ == joined(lock_dir@, lock_name(organization@, pool_id@)),
    {
        let mut identity_text = String::from_str(organization);
        identity_text.push_str("\0");
        identity_text.push_str(pool_id);
        let mut label = String::from_str(organization);
        label.push_str("__");
        label.push_str(pool_id);
        let mut path = String::from_str(lock_dir);
        let dir = chars_of(lock_dir);
        if dir.len() > 0 && dir[dir.len() - 1] != '/' {
            path.push_str("/");
        }
        let ghost start = path@;
        let chars = chars_of(label.as_str());
        let mut i: usize = 0;
        assert(sanitised(label@).take(0) =~= Seq::<char>::empty());
        assert(start + Seq::<char>::empty() =~= start);
        while i < chars.len()
            invariant
                i <= chars@.len(),
                chars@ == label@,
                path@ == start + sanitised(label@).take(i as int),
            decreases chars.len() - i,
        {
            let c = chars[i];
            let code: u32 = c as u32;
            let kept: char = if (48 <= code && code <= 57) || (65 <= code && code <= 90) || (97
                <= code && code <= 122) || c == '-' || c == '_' {
                c
            } else {
                '_'
            };
            assert(sanitised(label@)[i as int] == kept);
            assert((start + sanitised(label@).take(i as int)).push(kept) =~= start + sanitised(
                label@,
            ).take(i + 1));
            path.push(kept);
            i = i + 1;
        }
        assert(sanitised(label@).take(i as int) =~= sanitised(label@));
        path.push_str(".");
        push_hex(&mut path, fnv1a(identity_text.as_str().as_bytes()));
        path.push_str(".lock");
        assert(path@ =~= joined(lock_dir@, lock_name(organization@, pool_id@)));
        path
    }

    /// The lock of an organization's pool.
    pub fn new(lock_dir: &str, organization: &str, pool_id: &str) -> (lock: Self)
        ensures
            lock.location() == joined(lock_dir@, lock_name(organization@, pool_id@)),
    {
        PoolLock { path: Self::path_for(lock_dir, organization, pool_id) }
    }

    pub fn path(&self) -> (path: &str)
        ensures
            path@ == self.location(),
    {
        self.path.as_str()
    }
}

/// Law: where neither name holds the separator, two pools share an identity
/// only if they are the same pool of the same organization.
pub proof fn identities_are_unambiguous(
    organization: Seq<char>,
    pool_id: Seq<char>,
    other_organization: Seq<char>,
    other_pool: Seq<char>,
)
    requires
        !organization.contains('\0'),
        !other_organization.contains('\0'),
        identity(organization, pool_id) == identity(other_organization, other_pool),
    ensures
        organization == other_organization,
        pool_id == other_pool,
{
    reveal_strlit("\0");
    let n = organization.len() as int;
    let m = other_organization.len() as int;
    let a = identity(organization, pool_id);
    let b = identity(other_organization, other_pool);
    assert(a[n] == '\0');
    assert(b[m] == '\0');
    if n < m {
        assert(b[n] == other_organization[n]);
    } else if m < n {
        assert(a[m] == organization[m]);
    }
    assert(organization =~= a.take(n));
    assert(other_organization =~= b.take(m));
    assert(pool_id =~= a.skip(n + 1));
    assert(other_pool =~= b.skip(m + 1));
}

/// Law: a lock's file name is one name, whatever the organization and the pool
/// are called: it holds letters, digits, hyphens, underscores and dots alone,
/// and ends in `.lock`. It begins with the two names, each character of which
/// stands for itself where it may.
pub proof fn a_lock_name_is_one_name(organization: Seq<char>, pool_id: Seq<char>)
    ensures
        ({
            let name = lock_name(organization, pool_id);
            let hash = hex_text(fnv(encode_utf8(identity(organization, pool_id))));
            &&& name == name.take((organization.len() + 2 + pool_id.len()) as int) + "."@ + hash
                + ".lock"@
            &&& forall|i: int|
                0 <= i < organization.len() ==> #[trigger] name[i] == (if is_plain(organization[i]) {
                    organization[i]
                } else {
                    '_'
                })
            &&& name[organization.len() as int] == '_'
            &&& name[organization.len() + 1int] == '_'
            &&& forall|i: int|
                0 <= i < pool_id.len() ==> name[organization.len() + 2 + i] == (if is_plain(
                    #[trigger] pool_id[i],
                ) {
                    pool_id[i]
                } else {
                    '_'
                })
        }),
        forall|c: char| #[trigger] is_plain(c) <==> {
            ||| '0' as u32 <= c as u32 <= '9' as u32
            ||| 'a' as u32 <= c as u32 <= 'z' as u32
            ||| 'A' as u32 <= c as u32 <= 'Z' as u32
            ||| c == '-'
            ||| c == '_'
        },
{
    reveal_strlit("__");
    reveal_strlit(".");
    reveal_strlit(".lock");
    let label = organization + "__"@ + pool_id;
    let name = lock_name(organization, pool_id);
    let n = (organization.len() + 2 + pool_id.len()) as int;
    assert(label.len() == n);
    assert(name.take(n) =~= sanitised(label));
    assert(label[organization.len() as int] == '_' && label[organization.len() + 1int] == '_');
    assert forall|i: int| 0 <= i < organization.len() implies #[trigger] name[i] == (if is_plain(
        organization[i],
    ) {
        organization[i]
    } else {
        '_'
    }) by {
        assert(name[i] == sanitised(label)[i]);
        assert(label[i] == organization[i]);
    }
    assert(name[organization.len() as int] == sanitised(label)[organization.len() as int]);
    assert(name[organization.len() + 1int] == sanitised(label)[organization.len() + 1int]);
    assert forall|i: int| 0 <= i < pool_id.len() implies name[organization.len() + 2 + i] == (
    if is_plain(#[trigger] pool_id[i]) {
        pool_id[i]
    } else {
        '_'
    }) by {
        assert(name[organization.len() + 2 + i] == sanitised(label)[organization.len() + 2 + i]);
        assert(label[organization.len() + 2 + i] == pool_id[i]);
    }
}

/// Law: a file stands in its directory: below it, with one separator between
/// them.
pub proof fn a_file_stands_in_its_directory(dir: Seq<char>, name: Seq<char>)
    requires
        dir.len() > 0,
    ensures
        dir.last() == '/' ==> joined(dir, name) == dir + name,
        dir.last() != '/' ==> joined(dir, name) == dir.push('/') + name,
{
    reveal_strlit("/");
    assert(dir + "/"@ + name =~= dir.push('/') + name);
}

} // verus!
