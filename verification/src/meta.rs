//! Token metadata: display name and symbol per contract address.
//!
//! Resolution of metadata from a live chain is the host's business; the
//! library receives it as a plain table and looks a contract up by address.
//! An address with no entry resolves to empty name and symbol, the same
//! defaults a non-conforming contract would yield.

use vstd::prelude::*;

use crate::bytes::copy_bytes;

verus! {

/// Display metadata of one token contract.
pub struct TokenMeta {
    pub address: Vec<u8>,
    pub name: Vec<u8>,
    pub symbol: Vec<u8>,
}

/// Mathematical image of a [`TokenMeta`].
#[verifier::ext_equal]
pub struct TokenMetaView {
    pub address: Seq<u8>,
    pub name: Seq<u8>,
    pub symbol: Seq<u8>,
}

impl DeepView for TokenMeta {
    type V = TokenMetaView;

    open spec fn deep_view(&self) -> TokenMetaView {
        TokenMetaView {
            address: self.address.deep_view(),
            name: self.name.deep_view(),
            symbol: self.symbol.deep_view(),
        }
    }
}

/// The metadata collaborator, as a value: an ordered table of token
/// metadata, searched front to back.
pub struct MetaTable {
    pub entries: Vec<TokenMeta>,
}

impl DeepView for MetaTable {
    type V = Seq<TokenMetaView>;

    open spec fn deep_view(&self) -> Seq<TokenMetaView> {
        self.entries.deep_view()
    }
}

/// The name the table resolves for `addr`: the first matching entry's name,
/// or empty if none matches.
pub open spec fn resolved_name(table: Seq<TokenMetaView>, addr: Seq<u8>) -> Seq<u8>
    decreases table.len(),
{
    if table.len() == 0 {
        Seq::empty()
    } else if table.first().address == addr {
        table.first().name
    } else {
        resolved_name(table.drop_first(), addr)
    }
}

/// The symbol the table resolves for `addr`: the first matching entry's
/// symbol, or empty if none matches.
pub open spec fn resolved_symbol(table: Seq<TokenMetaView>, addr: Seq<u8>) -> Seq<u8>
    decreases table.len(),
{
    if table.len() == 0 {
        Seq::empty()
    } else if table.first().address == addr {
        table.first().symbol
    } else {
        resolved_symbol(table.drop_first(), addr)
    }
}

impl MetaTable {
    /// An empty table: every address resolves to empty name and symbol.
    pub fn new() -> (r: MetaTable)
        ensures
            r.deep_view() == Seq::<TokenMetaView>::empty(),
    {
        let r = MetaTable { entries: Vec::new() };
        proof {
            assert(r.deep_view() =~= Seq::<TokenMetaView>::empty());
        }
        r
    }

    /// Adds one entry at the back of the table.
    pub fn push(&mut self, entry: TokenMeta)
        ensures
            final(self).deep_view() == old(self).deep_view().push(entry.deep_view()),
    {
        let ghost before = self.deep_view();
        let ghost e = entry.deep_view();
        self.entries.push(entry);
        proof {
            assert(self.deep_view() =~= before.push(e));
        }
    }

    /// Looks `addr` up: the first matching entry's name and symbol, or
    /// empty defaults if no entry matches.
    pub fn resolve(&self, addr: &Vec<u8>) -> (r: (Vec<u8>, Vec<u8>))
        ensures
            r.0@ == resolved_name(self.deep_view(), addr@),
            r.1@ == resolved_symbol(self.deep_view(), addr@),
    {
        let ghost table = self.deep_view();
        proof {
            assert(table.skip(0) =~= table);
        }
        let mut i: usize = 0;
        while i < self.entries.len()
            invariant
                i <= self.entries.len(),
                table == self.deep_view(),
                resolved_name(table, addr@) == resolved_name(table.skip(i as int), addr@),
                resolved_symbol(table, addr@) == resolved_symbol(table.skip(i as int), addr@),
            decreases self.entries.len() - i,
        {
            let hit = self.entries[i].address == *addr;
            proof {
                assert(table.skip(i as int).first() == table[i as int]);
                assert(table[i as int].address =~= self.entries@[i as int].address@);
                if self.entries@[i as int].address@ =~= addr@ {
                    assert(self.entries@[i as int].address@ == addr@);
                }
            }
            if hit {
                let name = copy_bytes(&self.entries[i].name);
                let symbol = copy_bytes(&self.entries[i].symbol);
                proof {
                    assert(table[i as int].name =~= self.entries@[i as int].name@);
                    assert(table[i as int].symbol =~= self.entries@[i as int].symbol@);
                }
                return (name, symbol);
            }
            proof {
                assert(table.skip(i as int).drop_first() =~= table.skip(i + 1 as int));
            }
            i = i + 1;
        }
        proof {
            assert(table.skip(self.entries@.len() as int).len() == 0);
        }
        (Vec::new(), Vec::new())
    }
}

} // verus!
