use vstd::prelude::*;

verus! {

/// The rest of `path` below the mount point `mount`, where `mount` is a path
/// prefix of `path`: the two agree up to the end of `mount`, and that end falls
/// on a `/` or at the end of `path`. The separator between the two is dropped.
pub open spec fn mount_rest(path: Seq<char>, mount: Seq<char>) -> Option<Seq<char>> {
    if mount.len() <= path.len() && path.take(mount.len() as int) == mount {
        let rest = path.skip(mount.len() as int);
        if rest.len() == 0 || mount.len() == 0 || mount.last() == '/' {
            Some(rest)
        } else if rest[0] == '/' {
            Some(rest.drop_first())
        } else {
            None
        }
    } else {
        None
    }
}

/// Whether `prefix` is the start of `s`.
fn starts_with(s: &str, prefix: &str) -> (r: bool)
    ensures
        r == (prefix@.len() <= s@.len() && s@.take(prefix@.len() as int) == prefix@),
{
    let slen = s.unicode_len();
    let plen = prefix.unicode_len();
    if plen > slen {
        return false;
    }
    let mut i: usize = 0;
    while i < plen
        invariant
            plen == prefix@.len(),
            slen == s@.len(),
            plen <= slen,
            i <= plen,
            forall|k: int| 0 <= k < i ==> s@[k] == prefix@[k],
        decreases plen - i,
    {
        if s.get_char(i) != prefix.get_char(i) {
            assert(s@.take(plen as int)[i as int] != prefix@[i as int]);
            return false;
        }
        i = i + 1;
    }
    assert(s@.take(plen as int) =~= prefix@);
    true
}

/// The rest of `path` below the mount point `mount`, as [`mount_rest`] gives it.
pub fn strip_mount<'a>(path: &'a str, mount: &str) -> (r: Option<&'a str>)
    ensures
        match r {
            Some(rest) => mount_rest(path@, mount@) == Some(rest@),
            None => mount_rest(path@, mount@) is None,
        },
{
    if !starts_with(path, mount) {
        return None;
    }
    let plen = path.unicode_len();
    let mlen = mount.unicode_len();
    if plen == mlen || mlen == 0 || mount.get_char(mlen - 1) == '/' {
        Some(path.substring_char(mlen, plen))
    } else if path.get_char(mlen) == '/' {
        assert(path@.skip(mlen as int).drop_first() =~= path@.subrange(mlen + 1, plen as int));
        Some(path.substring_char(mlen + 1, plen))
    } else {
        None
    }
}

/// `path` read relative to the directory `root`: an absolute `path` stands as
/// it is; otherwise the two are joined by one separator, unless `root` is empty
/// or already ends in one.
pub open spec fn joined(root: Seq<char>, path: Seq<char>) -> Seq<char> {
    if path.len() > 0 && path[0] == '/' {
        path
    } else if root.len() == 0 || root.last() == '/' {
        root + path
    } else {
        root + seq!['/'] + path
    }
}

/// Joins `path` onto `root` as [`joined`] says.
pub fn join(root: &str, path: &str) -> (r: String)
    ensures
        r@ == joined(root@, path@),
{
    let plen = path.unicode_len();
    let rlen = root.unicode_len();
    if plen > 0 && path.get_char(0) == '/' {
        return path.to_owned();
    }
    let mut r = root.to_owned();
    if !(rlen == 0 || root.get_char(rlen - 1) == '/') {
        proof {
            reveal_strlit("/");
        }
        r.append("/");
    }
    r.append(path);
    r
}

} // verus!
