//! Paths as they are shown: a tilde for the home directory.

use vstd::prelude::*;
use vstd::string::*;

use crate::text::{chars_of, has_prefix, starts_with, str_eq};

verus! {

/// `path` with a tilde in place of `home` where it lies in or under it.
pub open spec fn tildified(path: Seq<char>, home: Option<Seq<char>>) -> Seq<char> {
    match home {
        Some(h) if h.len() > 0 && path == h => "~"@,
        Some(h) if h.len() > 0 && starts_with(path, h.push('/')) => "~"@ + path.skip(
            h.len() as int,
        ),
        _ => path,
    }
}

/// Shows `path` with a tilde in place of `home`, where it lies in or under it.
pub fn tildify(path: &str, home: Option<&str>) -> (r: String)
    ensures
        r@ == tildified(
            path@,
            match home {
                Some(h) => Some(h@),
                None => None,
            },
        ),
{
    match home {
        None => path.to_owned(),
        Some(h) => {
            if h.is_empty() {
                return path.to_owned();
            }
            if str_eq(path, h) {
                return "~".to_owned();
            }
            let mut dir: String = h.to_owned();
            dir.push('/');
            if has_prefix(path, dir.as_str()) {
                let mut out: String = "~".to_owned();
                let n: usize = path.unicode_len();
                let k: usize = h.unicode_len();
                out.append(path.substring_char(k, n));
                assert(path@.subrange(k as int, n as int) =~= path@.skip(h@.len() as int));
                out
            } else {
                path.to_owned()
            }
        },
    }
}

/// A path is shown with a tilde exactly where it is the home directory or lies under it, and the
/// tilde stands for the home directory: put back, it gives the path again. Every other path is
/// shown as it is.
pub proof fn law_tilde_stands_for_home(path: Seq<char>, home: Seq<char>, rest: Seq<char>)
    ensures
        tildified(path, None) == path,
        tildified(path, Some(Seq::empty())) == path,
        home.len() > 0 ==> tildified(home, Some(home)) == "~"@,
        home.len() > 0 ==> tildified(home + seq!['/'] + rest, Some(home)) == "~/"@ + rest,
        home.len() > 0 && path != home && !(exists|r: Seq<char>| path == #[trigger] (home + seq![
            '/',
        ] + r)) ==> tildified(path, Some(home)) == path,
{
    reveal_strlit("~");
    reveal_strlit("~/");
    if home.len() > 0 {
        let p = home + seq!['/'] + rest;
        assert(p.take(home.len() as int + 1) =~= home.push('/'));
        assert(p != home) by {
            assert(p.len() > home.len());
        }
        assert("~"@ + p.skip(home.len() as int) =~= "~/"@ + rest);
        if starts_with(path, home.push('/')) {
            let r = path.skip(home.len() as int + 1);
            assert(path =~= home + seq!['/'] + r) by {
                assert(path.take(home.len() as int + 1) == home.push('/'));
                assert forall|i: int| 0 <= i <= home.len() implies path[i] == home.push('/')[i] by {
                    assert(path.take(home.len() as int + 1)[i] == path[i]);
                }
            }
        }
    }
}

} // verus!
