use vstd::prelude::*;

use crate::error::ErrorCode;

verus! {

/// The number of pools; they are listed in the canonical order of `Pools`.
pub const NUM_POOLS: usize = 4;

/// The four pools, in canonical order.
#[derive(Clone, Copy, Debug, PartialEq, Eq, Structural)]
pub enum Pools {
    Solana,
    BNB,
    Polygon,
    Ethereum,
}

/// The kind of a transaction record.
#[derive(Clone, Copy, Debug, PartialEq, Eq, Structural)]
pub enum TransactionType {
    Deposit,
    Withdrawal,
}

impl TransactionType {
    /// The stored code of the transaction kind.
    pub open spec fn code(self) -> u8 {
        match self {
            TransactionType::Deposit => 1,
            TransactionType::Withdrawal => 2,
        }
    }

    /// The stored code of the transaction kind.
    pub fn to_code(&self) -> (r: u8)
        ensures
            r == self.code(),
    {
        match self {
            TransactionType::Deposit => 1,
            TransactionType::Withdrawal => 2,
        }
    }
}

impl Pools {
    /// The stored code of the pool: 1 to 4 in canonical order.
    pub open spec fn code(self) -> u8 {
        (self.index() + 1) as u8
    }

    /// The position of the pool in the canonical order.
    pub open spec fn index(self) -> nat {
        match self {
            Pools::Solana => 0,
            Pools::BNB => 1,
            Pools::Polygon => 2,
            Pools::Ethereum => 3,
        }
    }

    /// The pool at position `i` of the canonical order.
    pub open spec fn at(i: int) -> Pools
        recommends
            0 <= i < 4,
    {
        if i == 0 {
            Pools::Solana
        } else if i == 1 {
            Pools::BNB
        } else if i == 2 {
            Pools::Polygon
        } else {
            Pools::Ethereum
        }
    }

    /// The pool with stored code `val`, if any.
    pub open spec fn of_code(val: u8) -> Option<Pools> {
        if 1 <= val <= 4 {
            Some(Pools::at(val - 1))
        } else {
            None
        }
    }

    /// The display name of the pool with stored code `val`; empty for no pool.
    pub open spec fn label(val: u8) -> Seq<char> {
        if val == 1 {
            seq!['S', 'o', 'l', 'a', 'n', 'a']
        } else if val == 2 {
            seq!['B', 'N', 'B']
        } else if val == 3 {
            seq!['P', 'o', 'l', 'y', 'g', 'o', 'n']
        } else if val == 4 {
            seq!['E', 't', 'h', 'e', 'r', 'e', 'u', 'm']
        } else {
            Seq::empty()
        }
    }

    /// The position of a pool leads back to it, and so does its code.
    pub proof fn lemma_index_at(self)
        ensures
            self.index() < 4,
            Pools::at(self.index() as int) == self,
            Pools::of_code(self.code()) == Some(self),
    {
    }

    /// The stored code of the pool.
    pub fn to_code(&self) -> (r: u8)
        ensures
            r == self.code(),
            1 <= r <= 4,
    {
        match self {
            Pools::Solana => 1,
            Pools::BNB => 2,
            Pools::Polygon => 3,
            Pools::Ethereum => 4,
        }
    }

    /// The position of the pool in the canonical order.
    pub fn to_index(&self) -> (r: usize)
        ensures
            r == self.index(),
            r < NUM_POOLS,
            Pools::at(r as int) == *self,
    {
        match self {
            Pools::Solana => 0,
            Pools::BNB => 1,
            Pools::Polygon => 2,
            Pools::Ethereum => 3,
        }
    }

    /// The pool at position `i` of the canonical order.
    pub fn from_index(i: usize) -> (r: Pools)
        requires
            i < NUM_POOLS,
        ensures
            r == Pools::at(i as int),
            r.index() == i,
    {
        if i == 0 {
            Pools::Solana
        } else if i == 1 {
            Pools::BNB
        } else if i == 2 {
            Pools::Polygon
        } else {
            Pools::Ethereum
        }
    }

    /// The display name of the pool with stored code `val`; empty for a code
    /// that names no pool.
    pub fn code_to_string(val: u8) -> (r: String)
        ensures
            r@ == Pools::label(val),
    {
        let s: &str = match val {
            1 => "Solana",
            2 => "BNB",
            3 => "Polygon",
            4 => "Ethereum",
            _ => "",
        };
        proof {
            reveal_strlit("Solana");
            reveal_strlit("BNB");
            reveal_strlit("Polygon");
            reveal_strlit("Ethereum");
            reveal_strlit("");
        }
        let r = s.to_string();
        assert(r@ =~= Pools::label(val));
        r
    }

    /// The pool with stored code `val`.
    pub fn from(val: u8) -> (r: Result<Pools, ErrorCode>)
        ensures
            r matches Ok(p) ==> Pools::of_code(val) == Some(p),
            r is Err <==> Pools::of_code(val) is None,
            r is Err ==> r == Err::<Pools, ErrorCode>(ErrorCode::PoolUnknown),
    {
        match val {
            1 => Ok(Pools::Solana),
            2 => Ok(Pools::BNB),
            3 => Ok(Pools::Polygon),
            4 => Ok(Pools::Ethereum),
            _ => Err(ErrorCode::PoolUnknown),
        }
    }
}

} // verus!
