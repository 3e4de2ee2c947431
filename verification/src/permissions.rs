//! Per-row permission maps and the permission-predicate convention.
//!
//! Every persisted entity row carries a map from principal id to a level:
//! 0 means no access, 1 read access, 2 owner (write) access. The id 0 is a
//! reserved sentinel giving the default level for any principal not listed.
//! Read visibility holds when the principal's level, or the sentinel's, is
//! positive; write eligibility when the principal's own level exceeds 1.

use vstd::prelude::*;

use crate::query_builder::Argument;
use crate::query_builder::ArgumentModel;
use crate::query_builder::QueryBuilder;
use crate::query_builder::spec_where_raw;

verus! {

/// The read-visibility predicate template, applied before any other filter
/// on every get and list path: the principal's own level or the sentinel's
/// default must be positive. The placeholder token takes the principal's
/// bind position.
pub open spec fn read_predicate_template() -> Seq<char> {
    "((permissions ->> CAST(${index} as text))::integer > 0 OR (permissions ->> '0')::integer > 0)"@
}

/// The write-eligibility predicate template, applied on every update and
/// delete path: the principal's own level must exceed 1.
pub open spec fn write_predicate_template() -> Seq<char> {
    "(permissions ->> CAST(${index} as text))::integer > 1"@
}

/// Registers the read-visibility predicate on the builder, binding the
/// principal id at the current position.
pub fn where_read_permitted(qb: &mut QueryBuilder, principal: i64)
    requires
        old(qb)@.pointer < usize::MAX,
    ensures
        final(qb)@ == spec_where_raw(
            old(qb)@,
            read_predicate_template(),
            ArgumentModel::Int(principal as int),
        ),
        old(qb)@.wf() ==> final(qb)@.wf(),
{
    qb.where_raw(
        "((permissions ->> CAST(${index} as text))::integer > 0 OR (permissions ->> '0')::integer > 0)",
        Argument::Int(principal),
    );
}

/// Registers the write-eligibility predicate on the builder, binding the
/// principal id at the current position.
pub fn where_write_permitted(qb: &mut QueryBuilder, principal: i64)
    requires
        old(qb)@.pointer < usize::MAX,
    ensures
        final(qb)@ == spec_where_raw(
            old(qb)@,
            write_predicate_template(),
            ArgumentModel::Int(principal as int),
        ),
        old(qb)@.wf() ==> final(qb)@.wf(),
{
    qb.where_raw(
        "(permissions ->> CAST(${index} as text))::integer > 1",
        Argument::Int(principal),
    );
}

/// The level a map gives a principal: the stored entry, or 0 when absent.
pub open spec fn spec_level(m: Map<int, int>, principal: int) -> int {
    if m.contains_key(principal) {
        m[principal]
    } else {
        0
    }
}

/// Read/list visibility: the principal's level or the sentinel's is positive.
pub open spec fn spec_read_allowed(m: Map<int, int>, principal: int) -> bool {
    spec_level(m, principal) > 0 || spec_level(m, 0) > 0
}

/// Write/delete eligibility: the principal's own level exceeds 1 (the
/// sentinel grants read only).
pub open spec fn spec_write_allowed(m: Map<int, int>, principal: int) -> bool {
    spec_level(m, principal) > 1
}

/// A permission map as stored in a row's permissions column. Later entries
/// override earlier ones for the same principal.
pub struct PermissionMap {
    entries: Vec<(i64, u8)>,
}

spec fn entries_map(s: Seq<(i64, u8)>) -> Map<int, int>
    decreases s.len(),
{
    if s.len() == 0 {
        Map::empty()
    } else {
        entries_map(s.drop_last()).insert(s.last().0 as int, s.last().1 as int)
    }
}

impl View for PermissionMap {
    type V = Map<int, int>;

    closed spec fn view(&self) -> Map<int, int> {
        entries_map(self.entries@)
    }
}

impl PermissionMap {
    /// All stored levels are meaningful, i.e. at most 2 (owner).
    pub closed spec fn wf(&self) -> bool {
        forall|i: int| 0 <= i < self.entries@.len() ==> self.entries@[i].1 <= 2
    }

    /// A map granting nobody anything.
    pub fn empty() -> (r: PermissionMap)
        ensures
            r@ == Map::<int, int>::empty(),
            r.wf(),
    {
        PermissionMap { entries: Vec::new() }
    }

    /// The map a freshly created row gets: the creating principal becomes
    /// the owner, and nothing else is granted.
    pub fn owner(principal: i64) -> (r: PermissionMap)
        ensures
            r@ == Map::<int, int>::empty().insert(principal as int, 2),
            r.wf(),
    {
        let mut entries: Vec<(i64, u8)> = Vec::new();
        entries.push((principal, 2));
        proof {
            assert(entries@.drop_last() =~= Seq::<(i64, u8)>::empty());
            assert(entries_map(Seq::<(i64, u8)>::empty()) =~= Map::<int, int>::empty());
            assert(entries_map(entries@) =~= Map::<int, int>::empty().insert(
                principal as int,
                2,
            ));
        }
        PermissionMap { entries }
    }

    /// Grants `principal` the given level, overriding any earlier grant.
    pub fn grant(&mut self, principal: i64, level: u8)
        requires
            level <= 2,
        ensures
            final(self)@ == old(self)@.insert(principal as int, level as int),
            old(self).wf() ==> final(self).wf(),
    {
        self.entries.push((principal, level));
        proof {
            assert(self.entries@.drop_last() =~= old(self).entries@);
        }
    }

    /// The level this map gives a principal.
    pub fn level_of(&self, principal: i64) -> (r: u8)
        ensures
            r as int == spec_level(self@, principal as int),
            self.wf() ==> r <= 2,
    {
        let ghost s = self.entries@;
        let mut i: usize = self.entries.len();
        proof {
            assert(s.take(s.len() as int) =~= s);
        }
        while i > 0
            invariant
                i <= s.len(),
                s == self.entries@,
                spec_level(entries_map(s), principal as int) == spec_level(
                    entries_map(s.take(i as int)),
                    principal as int,
                ),
                self.wf() ==> forall|j: int| 0 <= j < s.len() ==> s[j].1 <= 2,
            decreases i,
        {
            proof {
                assert(s.take(i as int).drop_last() =~= s.take(i - 1));
                assert(s.take(i as int).last() == s[i - 1]);
            }
            let entry = self.entries[i - 1];
            if entry.0 == principal {
                return entry.1;
            }
            i -= 1;
        }
        proof {
            assert(s.take(0) =~= Seq::<(i64, u8)>::empty());
        }
        0
    }

    /// Whether a row carrying this map is visible to `principal` for
    /// get/list: its own level or the sentinel's default is positive.
    pub fn read_allowed(&self, principal: i64) -> (r: bool)
        ensures
            r == spec_read_allowed(self@, principal as int),
    {
        self.level_of(principal) > 0 || self.level_of(0) > 0
    }

    /// Whether `principal` may update or delete a row carrying this map.
    pub fn write_allowed(&self, principal: i64) -> (r: bool)
        ensures
            r == spec_write_allowed(self@, principal as int),
    {
        self.level_of(principal) > 1
    }
}

} // verus!
