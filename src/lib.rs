//! A handle-based access layer over an in-memory transactional key-value engine:
//! database handles, column-family registries under two sharing policies,
//! transactions, snapshots and iterators.
pub mod bytes;
pub mod table;
pub mod iter;
pub mod error;
pub mod engine;
pub mod options;
pub mod registry;
pub mod db;
pub mod batch;
pub mod transaction;
pub mod snapshot;

pub use batch::WriteBatch;
pub use db::{ColumnFamilyDescriptor, TransactionDB};
pub use engine::EngineCall;
pub use error::{Error, ErrorKind};
pub use iter::{DBIterator, DBRawIterator, Direction, IteratorMode};
pub use options::{Options, ReadOptions, TransactionDBOptions, TransactionOptions, WriteOptions};
pub use registry::{ColumnFamily, MultiThreaded, SingleThreaded, ThreadMode};
pub use snapshot::Snapshot;
pub use transaction::{Transaction, TxnState};
