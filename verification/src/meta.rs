//! The nested sample record that the demo program serialises.

use vstd::prelude::*;

verus! {

/// A named byte payload with a timestamp and an optional nested record.
#[derive(Debug)]
pub struct MetaStruct {
    pub name: String,
    pub data: Vec<u8>,
    pub nested: Option<Box<MetaStruct>>,
    pub timestamp: u64,
}

/// The contents of a record: its name's characters, its bytes, its
/// timestamp and the contents of the record nested in it.
pub struct MetaView {
    pub name: Seq<char>,
    pub data: Seq<u8>,
    pub nested: Option<Box<MetaView>>,
    pub timestamp: u64,
}

impl MetaStruct {
    pub open spec fn contents(self) -> MetaView
        decreases self,
    {
        MetaView {
            name: self.name@,
            data: self.data@,
            nested: match self.nested {
                Some(inner) => Some(Box::new((*inner).contents())),
                None => None,
            },
            timestamp: self.timestamp,
        }
    }
}

impl View for MetaStruct {
    type V = MetaView;

    open spec fn view(&self) -> MetaView {
        self.contents()
    }
}

impl Clone for MetaStruct {
    /// A copy of the record, nested records included.
    fn clone(&self) -> (c: Self)
        ensures
            c@ == self@,
        decreases self,
    {
        let nested = match &self.nested {
            Some(inner) => Some(Box::new((**inner).clone())),
            None => None,
        };
        MetaStruct {
            name: self.name.clone(),
            data: self.data.clone(),
            nested,
            timestamp: self.timestamp,
        }
    }
}

/// The bytes `(i % 256) as u8` for `i` in `start..start + len`.
pub open spec fn ramp(start: nat, len: nat) -> Seq<u8> {
    Seq::new(len, |k: int| ((start + k) % 256) as u8)
}

/// `(start..start + len).map(|i| (i % 256) as u8).collect()`.
pub fn byte_ramp(start: u32, len: u32) -> (v: Vec<u8>)
    requires
        start + len <= u32::MAX,
    ensures
        v@ == ramp(start as nat, len as nat),
{
    let mut v: Vec<u8> = Vec::new();
    let mut k: u32 = 0;
    while k < len
        invariant
            0 <= k <= len,
            start + len <= u32::MAX,
            v@.len() == k,
            forall|j: int| 0 <= j < k ==> #[trigger] v@[j] == ((start + j) % 256) as u8,
        decreases len - k,
    {
        v.push(((start + k) % 256) as u8);
        k = k + 1;
    }
    assert(v@ =~= ramp(start as nat, len as nat));
    v
}

/// The three-level sample record: "ComplexNestedStructure" (bytes of
/// 0..1000, timestamp 69) holding "DeeplyNested" (bytes of 1000..2000,
/// timestamp 420) holding "InceptionLevel" (bytes of 2000..3000, timestamp
/// 1337, nothing nested).
pub fn create_complex_data_structure() -> (m: MetaStruct)
    ensures
        m.name@ == "ComplexNestedStructure"@,
        m.data@ == ramp(0, 1000),
        m.timestamp == 69,
        m.nested matches Some(n1) && {
            &&& n1.name@ == "DeeplyNested"@
            &&& n1.data@ == ramp(1000, 1000)
            &&& n1.timestamp == 420
            &&& n1.nested matches Some(n2) && {
                &&& n2.name@ == "InceptionLevel"@
                &&& n2.data@ == ramp(2000, 1000)
                &&& n2.timestamp == 1337
                &&& n2.nested is None
            }
        },
{
    let innermost = MetaStruct {
        name: String::from_str("InceptionLevel"),
        data: byte_ramp(2000, 1000),
        nested: None,
        timestamp: 1337,
    };
    let middle = MetaStruct {
        name: String::from_str("DeeplyNested"),
        data: byte_ramp(1000, 1000),
        nested: Some(Box::new(innermost)),
        timestamp: 420,
    };
    MetaStruct {
        name: String::from_str("ComplexNestedStructure"),
        data: byte_ramp(0, 1000),
        nested: Some(Box::new(middle)),
        timestamp: 69,
    }
}

} // verus!
