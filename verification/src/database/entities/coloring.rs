//! The table of colorings.

use vstd::prelude::*;

use crate::database::{ColoringType, DbColoring};

verus! {

/// The table itself.
#[derive(Debug, Clone, Copy, PartialEq, Eq)]
pub struct Entity;

impl Entity {
    /// Gives the name of the table.
    pub fn table_name(&self) -> (r: &'static str)
        ensures
            r@ == "coloring"@,
    {
        "coloring"
    }

    /// Gives the link from the table to that of transfers.
    pub fn to_transfer() -> (r: RelationLink)
        ensures
            r.from == Column::TransferIdx,
            r.to_table@ == "transfer"@,
            r.to_column@ == "idx"@,
    {
        Relation::Transfer.def()
    }

    /// Gives the link from the table to that of transaction outputs.
    pub fn to_txo() -> (r: RelationLink)
        ensures
            r.from == Column::TxoIdx,
            r.to_table@ == "txo"@,
            r.to_column@ == "idx"@,
    {
        Relation::Txo.def()
    }
}

/// A row of the table.
#[derive(Debug, PartialEq, Eq)]
pub struct Model {
    /// Index of the row
    pub idx: i64,
    /// Index of the output
    pub txo_idx: i64,
    /// Index of the transfer that the coloring belongs to
    pub transfer_idx: i64,
    /// What the coloring stands for
    pub coloring_type: ColoringType,
    /// RGB amount, in decimal
    pub amount: String,
}

impl Model {
    /// The coloring that a row holds. The wallet ties a coloring to its asset
    /// transfer, whose index the row keeps as that of its transfer.
    pub open spec fn coloring(self) -> DbColoring {
        DbColoring {
            idx: self.idx,
            txo_idx: self.txo_idx,
            asset_transfer_idx: self.transfer_idx,
            coloring_type: self.coloring_type,
            amount: self.amount,
        }
    }

    /// Gives the coloring that the row holds.
    pub fn into_coloring(self) -> (r: DbColoring)
        ensures
            r == self.coloring(),
    {
        DbColoring {
            idx: self.idx,
            txo_idx: self.txo_idx,
            asset_transfer_idx: self.transfer_idx,
            coloring_type: self.coloring_type,
            amount: self.amount,
        }
    }

    /// Gives the row that holds a coloring.
    pub fn from_coloring(c: DbColoring) -> (r: Model)
        ensures
            r.coloring() == c,
    {
        Model {
            idx: c.idx,
            txo_idx: c.txo_idx,
            transfer_idx: c.asset_transfer_idx,
            coloring_type: c.coloring_type,
            amount: c.amount,
        }
    }
}

/// A column of the table.
#[derive(Debug, Clone, Copy, PartialEq, Eq, Structural)]
pub enum Column {
    /// Index of the row
    Idx,
    /// Index of the output
    TxoIdx,
    /// Index of the transfer
    TransferIdx,
    /// What the coloring stands for
    ColoringType,
    /// RGB amount
    Amount,
}

/// What a column holds.
#[derive(Debug, Clone, Copy, PartialEq, Eq, Structural)]
pub enum ColumnKind {
    /// A 64-bit integer
    BigInteger,
    /// A 16-bit integer
    SmallInteger,
    /// A text of any length
    Text,
}

impl Column {
    /// What the column holds: indices are big integers, the kind of a coloring
    /// is a small one and an amount is a text.
    pub open spec fn kind(self) -> ColumnKind {
        match self {
            Column::Idx | Column::TxoIdx | Column::TransferIdx => ColumnKind::BigInteger,
            Column::ColoringType => ColumnKind::SmallInteger,
            Column::Amount => ColumnKind::Text,
        }
    }

    /// Gives what the column holds.
    pub fn def(&self) -> (r: ColumnKind)
        ensures
            r == self.kind(),
    {
        match self {
            Column::Idx => ColumnKind::BigInteger,
            Column::TxoIdx => ColumnKind::BigInteger,
            Column::TransferIdx => ColumnKind::BigInteger,
            Column::ColoringType => ColumnKind::SmallInteger,
            Column::Amount => ColumnKind::Text,
        }
    }
}

/// The primary key of the table.
#[derive(Debug, Clone, Copy, PartialEq, Eq, Structural)]
pub enum PrimaryKey {
    /// Index of the row
    Idx,
}

impl PrimaryKey {
    /// Tells that the database numbers new rows.
    pub fn auto_increment() -> (r: bool)
        ensures
            r,
    {
        true
    }
}

/// A link from the table to another one.
#[derive(Debug, Clone, Copy, PartialEq, Eq, Structural)]
pub enum Relation {
    /// The transfer that a coloring belongs to
    Transfer,
    /// The output that a coloring is on
    Txo,
}

/// The two ends of a link between tables.
#[derive(Debug, PartialEq, Eq)]
pub struct RelationLink {
    /// The column of this table
    pub from: Column,
    /// The other table
    pub to_table: &'static str,
    /// The column of the other table
    pub to_column: &'static str,
}

impl Relation {
    /// Gives the two ends of the link.
    pub fn def(&self) -> (r: RelationLink)
        ensures
            self is Transfer ==> r.from == Column::TransferIdx && r.to_table@ == "transfer"@,
            self is Txo ==> r.from == Column::TxoIdx && r.to_table@ == "txo"@,
            r.to_column@ == "idx"@,
    {
        match self {
            Relation::Transfer => RelationLink {
                from: Column::TransferIdx,
                to_table: "transfer",
                to_column: "idx",
            },
            Relation::Txo => RelationLink {
                from: Column::TxoIdx,
                to_table: "txo",
                to_column: "idx",
            },
        }
    }
}

} // verus!
