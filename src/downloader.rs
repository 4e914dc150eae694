use vstd::prelude::*;
use vstd::string::StringExecFns;

use crate::utils::{data_dir, data_dir_of, dict_file, dict_file_of, CeOptions};

verus! {

/// Where the downloaded dictionary text is kept.
pub struct CeDownloader {
    base_path: String,
    data_dir: String,
    dict_file_path: String,
}

impl CeDownloader {
    pub closed spec fn spec_base_path(&self) -> Seq<char> {
        self.base_path@
    }

    pub closed spec fn spec_data_dir(&self) -> Seq<char> {
        self.data_dir@
    }

    pub closed spec fn spec_dict_file_path(&self) -> Seq<char> {
        self.dict_file_path@
    }

    /// A downloader that keeps the dictionary under the current directory.
    pub fn init() -> (r: CeDownloader)
        ensures
            r.spec_base_path() == "./"@,
            r.spec_data_dir() == data_dir_of("./"@),
            r.spec_dict_file_path() == dict_file_of("./"@),
    {
        let opts = CeOptions { base_path: String::from_str("./") };
        CeDownloader::init_with_options(&opts)
    }

    /// A downloader that keeps the dictionary under `opts.base_path`.
    pub fn init_with_options(opts: &CeOptions) -> (r: CeDownloader)
        ensures
            r.spec_base_path() == opts.base_path@,
            r.spec_data_dir() == data_dir_of(opts.base_path@),
            r.spec_dict_file_path() == dict_file_of(opts.base_path@),
    {
        CeDownloader {
            base_path: opts.base_path.clone(),
            data_dir: data_dir(&opts.base_path),
            dict_file_path: dict_file(&opts.base_path),
        }
    }

    pub fn base_path(&self) -> (r: &String)
        ensures
            r@ == self.spec_base_path(),
    {
        &self.base_path
    }

    pub fn data_dir(&self) -> (r: &String)
        ensures
            r@ == self.spec_data_dir(),
    {
        &self.data_dir
    }

    pub fn dict_file_path(&self) -> (r: &String)
        ensures
            r@ == self.spec_dict_file_path(),
    {
        &self.dict_file_path
    }
}

} // verus!
