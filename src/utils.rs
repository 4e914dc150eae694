use vstd::prelude::*;
use vstd::string::StringExecFns;

verus! {

/// The directory, under the base path, that holds the dictionary files.
pub const DATA_DIR_NAME: &'static str = "data";

/// The file name of the dictionary text inside the data directory.
pub const DICT_FILE_NAME: &'static str = "cedict_ts.u8";

/// Where the library finds its files.
pub struct CeOptions {
    pub base_path: String,
}

/// `name` joined to the path `base` as `Path::join` joins a relative name:
/// with a `/` between them unless `base` is empty or already ends in one.
pub open spec fn join(base: Seq<char>, name: Seq<char>) -> Seq<char> {
    if base.len() == 0 {
        name
    } else if base.last() == '/' {
        base + name
    } else {
        base + seq!['/'] + name
    }
}

/// The data directory under `base`.
pub open spec fn data_dir_of(base: Seq<char>) -> Seq<char> {
    join(base, DATA_DIR_NAME@)
}

/// The dictionary file under `base`.
pub open spec fn dict_file_of(base: Seq<char>) -> Seq<char> {
    join(data_dir_of(base), DICT_FILE_NAME@)
}

/// `name` joined to the path `base`.
pub fn join_path(base: &str, name: &str) -> (r: String)
    ensures
        r@ == join(base@, name@),
{
    let mut r = String::from_str(base);
    let n = base.unicode_len();
    if n > 0 && base.get_char(n - 1) != '/' {
        r.append("/");
        proof {
            reveal_strlit("/");
        }
    }
    r.append(name);
    proof {
        if base@.len() > 0 && base@.last() != '/' {
            assert(r@ =~= base@ + seq!['/'] + name@);
        }
    }
    r
}

/// The data directory under `base`.
pub fn data_dir(base: &String) -> (r: String)
    ensures
        r@ == data_dir_of(base@),
{
    join_path(base.as_str(), DATA_DIR_NAME)
}

/// The dictionary file under `base`.
pub fn dict_file(base: &String) -> (r: String)
    ensures
        r@ == dict_file_of(base@),
{
    let dir = data_dir(base);
    join_path(dir.as_str(), DICT_FILE_NAME)
}

} // verus!
