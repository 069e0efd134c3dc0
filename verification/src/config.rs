//! Where the node keeps its state and when it migrates, as configured.

use vstd::prelude::*;

verus! {

/// What the command line may set of the chain configuration.
#[derive(Clone, Debug)]
pub struct Args {
    pub db_path: Option<String>,
    pub consensus_keys_path: Option<String>,
    pub migration_height: Option<u64>,
}

/// The chain configuration of a node.
#[derive(Clone, Debug)]
pub struct ChainConfig {
    db_path: Option<String>,
    consensus_keys_path: Option<String>,
    migration_height: Option<u64>,
}

/// The chain configuration as contracts see it.
pub struct ChainConfigView {
    pub db_path: Option<Seq<char>>,
    pub consensus_keys_path: Option<Seq<char>>,
    pub migration_height: Option<u64>,
}

/// The text of a path that may be missing.
pub open spec fn path_view(path: Option<String>) -> Option<Seq<char>> {
    match path {
        Some(path) => Some(path@),
        None => None,
    }
}

impl View for ChainConfig {
    type V = ChainConfigView;

    closed spec fn view(&self) -> ChainConfigView {
        ChainConfigView {
            db_path: path_view(self.db_path),
            consensus_keys_path: path_view(self.consensus_keys_path),
            migration_height: self.migration_height,
        }
    }
}

fn copy_path(path: &Option<String>) -> (copy: Option<String>)
    ensures
        path_view(copy) == path_view(*path),
{
    match path {
        Some(path) => Some(path.clone()),
        None => None,
    }
}

impl Default for ChainConfig {
    fn default() -> (config: Self)
        ensures
            config@ == (ChainConfigView {
                db_path: None,
                consensus_keys_path: None,
                migration_height: None,
            }),
    {
        ChainConfig { db_path: None, consensus_keys_path: None, migration_height: None }
    }
}

impl ChainConfig {
    pub fn new(
        db_path: Option<String>,
        consensus_keys_path: Option<String>,
        migration_height: Option<u64>,
    ) -> (config: Self)
        ensures
            config@ == (ChainConfigView {
                db_path: path_view(db_path),
                consensus_keys_path: path_view(consensus_keys_path),
                migration_height,
            }),
    {
        ChainConfig { db_path, consensus_keys_path, migration_height }
    }

    /// Overwrites what the command line sets; what it does not set stays.
    pub fn merge(&mut self, args: &Args)
        ensures
            final(self)@.consensus_keys_path == if args.consensus_keys_path.is_some() {
                path_view(args.consensus_keys_path)
            } else {
                old(self)@.consensus_keys_path
            },
            final(self)@.db_path == if args.db_path.is_some() {
                path_view(args.db_path)
            } else {
                old(self)@.db_path
            },
            final(self)@.migration_height == if args.migration_height.is_some() {
                args.migration_height
            } else {
                old(self)@.migration_height
            },
    {
        if args.consensus_keys_path.is_some() {
            self.consensus_keys_path = copy_path(&args.consensus_keys_path);
        }
        if args.db_path.is_some() {
            self.db_path = copy_path(&args.db_path);
        }
        if let Some(migration_height) = args.migration_height {
            self.migration_height = Some(migration_height);
        }
    }

    /// The path of the state, where one is configured.
    pub fn configured_db_path(&self) -> (path: Option<String>)
        ensures
            path_view(path) == self@.db_path,
    {
        copy_path(&self.db_path)
    }

    /// The path of the consensus keys, where one is configured.
    pub fn configured_consensus_keys_path(&self) -> (path: Option<String>)
        ensures
            path_view(path) == self@.consensus_keys_path,
    {
        copy_path(&self.consensus_keys_path)
    }

    /// The configured path of the state, or `fallback` where none is
    /// configured.
    pub fn db_path(&self, fallback: String) -> (path: String)
        ensures
            path@ == match self@.db_path {
                Some(path) => path,
                None => fallback@,
            },
    {
        match &self.db_path {
            Some(path) => path.clone(),
            None => fallback,
        }
    }

    /// The configured path of the consensus keys, or `fallback` where none
    /// is configured.
    pub fn consensus_keys_path(&self, fallback: String) -> (path: String)
        ensures
            path@ == match self@.consensus_keys_path {
                Some(path) => path,
                None => fallback@,
            },
    {
        match &self.consensus_keys_path {
            Some(path) => path.clone(),
            None => fallback,
        }
    }

    pub fn migration_height(&self) -> (height: Option<u64>)
        ensures
            height == self@.migration_height,
    {
        self.migration_height
    }
}

} // verus!
