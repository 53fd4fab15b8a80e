//! The pair of files that one persisted document lives in.

use vstd::prelude::*;
use vstd::string::*;

verus! {

/// The final file of a document and the staging file beside it.
#[derive(Debug, Clone)]
pub struct Paths {
    pub path: String,
    pub tmp_path: String,
}

/// `dir` and `name` joined by exactly one `/`: none is added where `dir` is
/// empty or already ends in one.
pub open spec fn joined(dir: Seq<char>, name: Seq<char>) -> Seq<char> {
    if dir.len() == 0 || dir.last() == '/' {
        dir + name
    } else {
        dir + seq!['/'] + name
    }
}

/// The characters of `.json`.
pub open spec fn json_extension() -> Seq<char> {
    seq!['.', 'j', 's', 'o', 'n']
}

/// The characters of `.tmp`.
pub open spec fn tmp_extension() -> Seq<char> {
    seq!['.', 't', 'm', 'p']
}

/// The position of the last `c` in `text`, or -1 where there is none.
pub open spec fn last_index_of(text: Seq<char>, c: char) -> int
    decreases text.len(),
{
    if text.len() == 0 {
        -1
    } else if text.last() == c {
        text.len() - 1
    } else {
        last_index_of(text.drop_last(), c)
    }
}

/// Where the extension of the file name of `path` begins: at its last `.`,
/// unless that stands in a directory's name or at the start of the file
/// name; at the end of `path` where the file name has no extension.
pub open spec fn stem_end(path: Seq<char>) -> int {
    if last_index_of(path, '.') > last_index_of(path, '/') + 1 {
        last_index_of(path, '.')
    } else {
        path.len() as int
    }
}

/// `path` with the extension of its file name replaced by `.tmp`, or with
/// `.tmp` added where it has none.
pub open spec fn staged(path: Seq<char>) -> Seq<char> {
    path.take(stem_end(path)) + tmp_extension()
}

impl Paths {
    /// The final file `path` with its staging file beside it: the same
    /// name with the extension `tmp`.
    pub fn beside(path: &str) -> (paths: Paths)
        ensures
            paths.path@ == path@,
            paths.tmp_path@ == staged(path@),
    {
        let n = path.unicode_len();
        let mut slash: Option<usize> = None;
        let mut dot: Option<usize> = None;
        let mut i: usize = 0;
        assert(path@.take(0) =~= Seq::<char>::empty());
        while i < n
            invariant
                i <= n,
                n == path@.len(),
                last_index_of(path@.take(i as int), '/') == (match slash {
                    Some(at) => at as int,
                    None => -1,
                }),
                last_index_of(path@.take(i as int), '.') == (match dot {
                    Some(at) => at as int,
                    None => -1,
                }),
                slash matches Some(at) ==> at < i,
                dot matches Some(at) ==> at < i,
            decreases n - i,
        {
            let c = path.get_char(i);
            proof {
                let prefix = path@.take(i + 1);
                assert(prefix.drop_last() == path@.take(i as int));
                assert(prefix.last() == c);
            }
            if c == '/' {
                slash = Some(i);
            }
            if c == '.' {
                dot = Some(i);
            }
            i += 1;
        }
        assert(path@.take(n as int) == path@);
        let name_start: usize = match slash {
            Some(at) => at + 1,
            None => 0,
        };
        let end: usize = match dot {
            Some(at) => if at > name_start {
                at
            } else {
                n
            },
            None => n,
        };
        proof {
            reveal_strlit(".tmp");
        }
        let stem = String::from_str(path.substring_char(0, end));
        assert(stem@ =~= path@.take(end as int));
        let tmp_path = stem.concat(".tmp");
        assert(".tmp"@ == tmp_extension());
        Paths { path: String::from_str(path), tmp_path }
    }

    /// The two files of the document `name` under the directory
    /// `net_config_path`: `<dir>/<name>.json` and `<dir>/<name>.tmp`.
    pub fn new(net_config_path: &str, name: &str) -> (paths: Paths)
        ensures
            paths.path@ == joined(net_config_path@, name@) + json_extension(),
            paths.tmp_path@ == joined(net_config_path@, name@) + tmp_extension(),
    {
        let n = net_config_path.unicode_len();
        let mut base = String::from_str(net_config_path);
        if n > 0 && net_config_path.get_char(n - 1) != '/' {
            proof {
                reveal_strlit("/");
            }
            base.append("/");
            assert(base@ == net_config_path@ + seq!['/']);
        }
        base.append(name);
        assert(base@ == joined(net_config_path@, name@));
        proof {
            reveal_strlit(".json");
            reveal_strlit(".tmp");
        }
        let path = base.clone().concat(".json");
        let tmp_path = base.concat(".tmp");
        assert(".json"@ == json_extension());
        assert(".tmp"@ == tmp_extension());
        Paths { path, tmp_path }
    }
}

} // verus!
