//! Uploading files: the naming rules applied to what is uploaded.  The
//! transfer itself, its throttling and the expiry scheduling live outside.

use vstd::prelude::*;
use vstd::string::StringExecFns;
use crate::errors::StoreError;
use crate::strutil::{chars_of, string_of};

verus! {

/// The last position of a character, or -1 where it does not occur.
pub open spec fn last_pos(s: Seq<char>, c: char) -> int
    decreases s.len(),
{
    if s.len() == 0 {
        -1
    } else if s.last() == c {
        s.len() - 1
    } else {
        last_pos(s.drop_last(), c)
    }
}

/// The file name part of a path: everything after the last separator.
pub open spec fn base_name(path: Seq<char>) -> Seq<char> {
    path.skip(last_pos(path, '/') + 1)
}

/// The stem of a file name: everything before the last dot, unless the
/// dot opens the name (a hidden file has no extension).
pub open spec fn stem_of(name: Seq<char>) -> Seq<char> {
    if last_pos(name, '.') > 0 {
        name.take(last_pos(name, '.'))
    } else {
        name
    }
}

/// The extension of a file name, dot included; empty where there is none.
pub open spec fn extension_of(name: Seq<char>) -> Seq<char> {
    if last_pos(name, '.') > 0 {
        name.skip(last_pos(name, '.'))
    } else {
        Seq::empty()
    }
}

/// The name a file is uploaded under: a prefix before the stem, a suffix
/// after it, and the extension kept at the end.  A path without a file
/// name part is rejected.
pub fn transform_filename(prefix: Option<&str>, suffix: Option<&str>, file: &str) -> (r: Result<
    String,
    StoreError,
>)
    ensures
        r is Ok <==> base_name(file@).len() > 0 && file@.len() < 0x7fff_ffff_ffff_ffff,
        r is Err ==> (r->Err_0 matches StoreError::InvalidFilename { path } && path@ == file@),
        r is Ok ==> r->Ok_0@ == (match prefix {
            Some(p) => p@,
            None => Seq::<char>::empty(),
        }) + stem_of(base_name(file@)) + (match suffix {
            Some(sfx) => sfx@,
            None => Seq::<char>::empty(),
        }) + extension_of(base_name(file@)),
{
    let cs = chars_of(file);
    if cs.len() as u64 >= 0x7fff_ffff_ffff_ffffu64 {
        // a path this long cannot name a real file
        return Err(StoreError::InvalidFilename { path: String::from_str(file) });
    }
    let slash = find_last(&cs, '/');
    let name = crate::remote::vec_suffix(
        &cs,
        if slash < 0 {
            0
        } else {
            (slash + 1) as usize
        },
    );
    proof {
        assert(name@ == base_name(file@));
    }
    if name.len() == 0 {
        return Err(StoreError::InvalidFilename { path: String::from_str(file) });
    }
    let dot = find_last(&name, '.');
    let (stem, ext) = if dot > 0 {
        let stem = crate::remote::vec_prefix(&name, dot as usize);
        let ext = crate::remote::vec_suffix(&name, dot as usize);
        (stem, ext)
    } else {
        (name, Vec::new())
    };
    proof {
        assert(stem@ == stem_of(base_name(file@)));
        assert(ext@ =~= extension_of(base_name(file@)));
    }
    let mut out = match prefix {
        Some(p) => String::from_str(p),
        None => String::new(),
    };
    out.append(string_of(stem.as_slice()).as_str());
    match suffix {
        Some(sfx) => out.append(sfx),
        None => (),
    }
    out.append(string_of(ext.as_slice()).as_str());
    proof {
        assert(out@ =~= (match prefix {
            Some(p) => p@,
            None => Seq::<char>::empty(),
        }) + stem_of(base_name(file@)) + (match suffix {
            Some(sfx) => sfx@,
            None => Seq::<char>::empty(),
        }) + extension_of(base_name(file@)));
    }
    Ok(out)
}

/// Find the last occurrence of a character, or -1.
fn find_last(cs: &Vec<char>, c: char) -> (r: i64)
    requires
        cs@.len() < 0x7fff_ffff_ffff_ffff,
    ensures
        r == last_pos(cs@, c),
        -1 <= r < cs@.len(),
        r >= 0 ==> cs@[r as int] == c,
{
    let mut found: i64 = -1;
    let mut n: usize = 0;
    while n < cs.len()
        invariant
            n <= cs@.len(),
            cs@.len() < 0x7fff_ffff_ffff_ffff,
            found == last_pos(cs@.take(n as int), c),
            -1 <= found < n as int,
            found >= 0 ==> cs@[found as int] == c,
        decreases cs@.len() - n,
    {
        proof {
            assert(cs@.take(n + 1).drop_last() =~= cs@.take(n as int));
            assert(cs@.take(n + 1).last() == cs@[n as int]);
        }
        if cs[n] == c {
            found = n as i64;
        }
        n = n + 1;
    }
    proof {
        assert(cs@.take(n as int) =~= cs@);
    }
    found
}

} // verus!
