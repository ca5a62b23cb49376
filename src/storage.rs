//! Where the stores live under a working directory: `bitcoin/` for anchor
//! blocks, `stacks/` for execution blocks and deployed code, and
//! `contracts/<contract_id>/` for each observed contract.
use vstd::prelude::*;
use vstd::string::StringExecFns;

verus! {

#[derive(Clone, Debug)]
pub struct FilesystemConfig {
    pub working_dir: String,
}

#[derive(Clone, Debug)]
pub enum StorageDriver {
    Filesystem(FilesystemConfig),
}

/// `base/name`, paths written with `/` between components.
pub open spec fn path_join(base: Seq<char>, name: Seq<char>) -> Seq<char> {
    base + seq!['/'] + name
}

fn join(base: &String, name: &str) -> (r: String)
    ensures
        r@ == path_join(base@, name@),
{
    let mut r = base.clone();
    r.append("/");
    r.append(name);
    proof {
        reveal_strlit("/");
    }
    r
}

impl StorageDriver {
    pub fn filesystem(working_dir: String) -> (r: StorageDriver)
        ensures
            r.working_dir()@ == working_dir@,
    {
        StorageDriver::Filesystem(FilesystemConfig { working_dir })
    }

    pub open spec fn working_dir(&self) -> String {
        match self {
            StorageDriver::Filesystem(config) => config.working_dir,
        }
    }
}

pub fn bitcoin_blocks_db_path(storage_driver: &StorageDriver) -> (r: String)
    ensures
        r@ == path_join(storage_driver.working_dir()@, "bitcoin"@),
{
    match storage_driver {
        StorageDriver::Filesystem(config) => join(&config.working_dir, "bitcoin"),
    }
}

pub fn stacks_blocks_db_path(storage_driver: &StorageDriver) -> (r: String)
    ensures
        r@ == path_join(storage_driver.working_dir()@, "stacks"@),
{
    match storage_driver {
        StorageDriver::Filesystem(config) => join(&config.working_dir, "stacks"),
    }
}

pub fn contract_db_path(storage_driver: &StorageDriver, contract_id: &str) -> (r: String)
    ensures
        r@ == path_join(path_join(storage_driver.working_dir()@, "contracts"@), contract_id@),
{
    match storage_driver {
        StorageDriver::Filesystem(config) => {
            let contracts = join(&config.working_dir, "contracts");
            join(&contracts, contract_id)
        },
    }
}

} // verus!
