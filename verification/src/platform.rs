//! The classes that the platform provides, by their names.

use crate::classinfo::{
    spec_digest, spec_records, ClassInfo, ClassInfoView, DigestError,
};
use crate::table::NameMap;
use vstd::prelude::*;
use vstd::string::*;
use vstd::utf8::*;

verus! {

/// The classes of the platform, by their names.
#[derive(Debug)]
pub struct Platform {
    pub classes: NameMap<ClassInfo>,
}

impl View for Platform {
    type V = Map<Seq<char>, ClassInfoView>;

    open spec fn view(&self) -> Map<Seq<char>, ClassInfoView> {
        Map::new(
            |name: Seq<char>| self.classes.entries().contains_key(name),
            |name: Seq<char>| self.classes.entries()[name]@,
        )
    }
}

/// The map that the first `n` of the records make, each under its name: of
/// two records of one name the later stands.
pub open spec fn platform_of(records: Seq<ClassInfoView>, n: int) -> Map<Seq<char>, ClassInfoView>
    decreases n,
{
    if n <= 0 {
        Map::empty()
    } else {
        platform_of(records, n - 1).insert(records[n - 1].name, records[n - 1])
    }
}

impl Platform {
    /// Whether the platform is in order.
    pub open spec fn wf(&self) -> bool {
        self.classes.wf()
    }

    /// A platform without classes.
    pub fn new() -> (r: Self)
        ensures
            r.wf(),
            r@ == Map::<Seq<char>, ClassInfoView>::empty(),
    {
        let r = Platform { classes: NameMap::new() };
        assert(r@ =~= Map::<Seq<char>, ClassInfoView>::empty());
        r
    }

    /// How many classes the platform has.
    pub fn len(&self) -> (n: usize)
        requires
            self.wf(),
        ensures
            n == self@.dom().len(),
            n == self.classes.keys@.len(),
    {
        proof {
            self.classes.lemma_count();
            assert(self@.dom() =~= self.classes.entries().dom());
        }
        self.classes.len()
    }

    /// Whether the platform has a class of the name.
    pub fn contains(&self, name: &str) -> (r: bool)
        requires
            self.wf(),
        ensures
            r == self@.contains_key(name@),
    {
        self.classes.has_key(name)
    }

    /// Puts a class into the platform under its name, in place of the class
    /// of the same name if there is one.
    pub fn insert(&mut self, record: ClassInfo)
        requires
            old(self).wf(),
        ensures
            final(self).wf(),
            final(self)@ == old(self)@.insert(record@.name, record@),
    {
        let ghost before = self@;
        let key = record.name.clone();
        self.classes.insert(key, record);
        assert(self@ =~= before.insert(record@.name, record@));
    }
}

/// Reads a digest into the classes of the platform.
pub fn read_classinfo(data: &str) -> (r: Result<Platform, DigestError>)
    ensures
        match r {
            Ok(platform) => platform.wf() && spec_digest(encode_utf8(data@)) is Ok && platform@
                == platform_of(
                spec_digest(encode_utf8(data@))->Ok_0,
                spec_digest(encode_utf8(data@))->Ok_0.len() as int,
            ),
            Err(e) => spec_digest(encode_utf8(data@)) == Err::<Seq<ClassInfoView>, DigestError>(e),
        },
{
    let bytes = data.as_bytes();
    let mut platform = Platform::new();
    let ghost mut records: Seq<ClassInfoView> = Seq::empty();
    let mut at: usize = 0;
    loop
        invariant
            at <= bytes@.len(),
            bytes@ == encode_utf8(data@),
            platform.wf(),
            platform@ == platform_of(records, records.len() as int),
            spec_digest(bytes@) == spec_records(bytes@, at as int, records),
        decreases bytes@.len() - at,
    {
        match ClassInfo::parse(bytes, at) {
            Err(e) => {
                return Err(e);
            },
            Ok((record, next)) => {
                proof {
                    let extended = records.push(record@);
                    assert(platform_of(extended, extended.len() - 1) == platform_of(
                        records,
                        records.len() as int,
                    )) by {
                        lemma_platform_of_prefix(records, extended, records.len() as int);
                    }
                    records = extended;
                }
                platform.insert(record);
                if next >= bytes.len() {
                    return Ok(platform);
                }
                at = next;
            },
        }
    }
}

proof fn lemma_platform_of_prefix(a: Seq<ClassInfoView>, b: Seq<ClassInfoView>, n: int)
    requires
        n <= a.len(),
        n <= b.len(),
        forall|k: int| 0 <= k < n ==> a[k] == b[k],
    ensures
        platform_of(a, n) == platform_of(b, n),
    decreases n,
{
    if n > 0 {
        lemma_platform_of_prefix(a, b, n - 1);
    }
}

} // verus!
