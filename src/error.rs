use vstd::prelude::*;

verus! {

/// The failure kinds shared by the block server and the peer store.
#[derive(Debug)]
pub enum SPVError {
    /// bad proof of work
    SpvBadProofOfWork,
    /// unconnected header chain detected
    UnconnectedHeader,
    /// no chain tip found
    NoTip,
    /// no peers to connect to
    NoPeers,
    /// unknown UTXO referred
    UnknownUTXO,
    /// Merkle root of block does not match the header
    BadMerkleRoot,
    /// downstream error, with its description
    Downstream(String),
    /// network I/O error, with its description
    IO(String),
    /// storage engine error, with its description
    DB(String),
    /// chain utility error, with its description
    Util(String),
    /// serialization error, with its description
    Serialize(String),
    /// block store error, with its description
    Hammersbald(String),
}

impl SPVError {
    /// A short description of the failure: the fixed text of a plain kind, or the
    /// description carried by a wrapped one.
    pub fn description(&self) -> (r: &str)
        ensures
            r@ == self.description_spec(),
    {
        proof {
            reveal_strlit("bad proof of work");
            reveal_strlit("unconnected header");
            reveal_strlit("no chain tip found");
            reveal_strlit("unknown utxo");
            reveal_strlit("no peers");
            reveal_strlit("merkle root of header does not match transaction list");
        }
        match self {
            SPVError::SpvBadProofOfWork => "bad proof of work",
            SPVError::UnconnectedHeader => "unconnected header",
            SPVError::NoTip => "no chain tip found",
            SPVError::UnknownUTXO => "unknown utxo",
            SPVError::NoPeers => "no peers",
            SPVError::BadMerkleRoot => "merkle root of header does not match transaction list",
            SPVError::Downstream(s) => s.as_str(),
            SPVError::IO(s) => s.as_str(),
            SPVError::DB(s) => s.as_str(),
            SPVError::Util(s) => s.as_str(),
            SPVError::Hammersbald(s) => s.as_str(),
            SPVError::Serialize(s) => s.as_str(),
        }
    }

    pub open spec fn description_spec(&self) -> Seq<char> {
        match self {
            SPVError::SpvBadProofOfWork => "bad proof of work"@,
            SPVError::UnconnectedHeader => "unconnected header"@,
            SPVError::NoTip => "no chain tip found"@,
            SPVError::UnknownUTXO => "unknown utxo"@,
            SPVError::NoPeers => "no peers"@,
            SPVError::BadMerkleRoot => "merkle root of header does not match transaction list"@,
            SPVError::Downstream(s) => s@,
            SPVError::IO(s) => s@,
            SPVError::DB(s) => s@,
            SPVError::Util(s) => s@,
            SPVError::Hammersbald(s) => s@,
            SPVError::Serialize(s) => s@,
        }
    }

    /// Whether this failure wraps the error of another component.
    pub fn has_cause(&self) -> (r: bool)
        ensures
            r == (self is IO || self is DB || self is Util || self is Hammersbald
                || self is Serialize),
    {
        match self {
            SPVError::IO(_) | SPVError::DB(_) | SPVError::Util(_) | SPVError::Hammersbald(_)
            | SPVError::Serialize(_) => true,
            _ => false,
        }
    }
}

} // verus!
