use vstd::prelude::*;

verus! {

/// The mathematical model of a [`Value`]: integers are unbounded, text is a
/// character sequence, blobs are byte sequences.
pub enum SpecValue {
    Null,
    Integer(int),
    Text(Seq<char>),
    Blob(Seq<u8>),
}

/// A tagged union over the column types the engine supports.
///
/// Floating-point (`Real`) columns are outside the scope of this core:
/// the record decoder reports them as `Corrupt`.
#[derive(Debug)]
pub enum Value {
    Null,
    Integer(i64),
    Text(String),
    Blob(Vec<u8>),
}

impl View for Value {
    type V = SpecValue;

    open spec fn view(&self) -> SpecValue {
        match self {
            Value::Null => SpecValue::Null,
            Value::Integer(i) => SpecValue::Integer(*i as int),
            Value::Text(s) => SpecValue::Text(s@),
            Value::Blob(b) => SpecValue::Blob(b@),
        }
    }
}

impl Clone for Value {
    fn clone(&self) -> (r: Self)
        ensures
            r@ == self@,
    {
        match self {
            Value::Null => Value::Null,
            Value::Integer(i) => Value::Integer(*i),
            Value::Text(s) => Value::Text(s.clone()),
            Value::Blob(b) => Value::Blob(clone_bytes(b)),
        }
    }
}

/// Byte-for-byte copy of a blob body.
fn clone_bytes(b: &Vec<u8>) -> (r: Vec<u8>)
    ensures
        r@ == b@,
{
    let mut r: Vec<u8> = Vec::new();
    let mut i: usize = 0;
    while i < b.len()
        invariant
            i <= b@.len(),
            r@ == b@.subrange(0, i as int),
        decreases b@.len() - i,
    {
        r.push(b[i]);
        i = i + 1;
        proof {
            assert(r@ =~= b@.subrange(0, i as int));
        }
    }
    proof {
        assert(r@ =~= b@);
    }
    r
}

/// An ordered sequence of values representing one row, produced when a
/// cursor positions on a cell and consumed by the VM when projecting
/// columns into registers.
#[derive(Debug)]
pub struct Record {
    pub values: Vec<Value>,
}

impl View for Record {
    type V = Seq<SpecValue>;

    open spec fn view(&self) -> Seq<SpecValue> {
        Seq::new(self.values@.len(), |i: int| self.values@[i]@)
    }
}

impl Record {
    pub fn new(values: Vec<Value>) -> (r: Self)
        ensures
            r.values@ == values@,
    {
        Record { values }
    }
}

impl Clone for Record {
    fn clone(&self) -> (r: Self)
        ensures
            r@ == self@,
    {
        let mut values: Vec<Value> = Vec::new();
        let mut i: usize = 0;
        while i < self.values.len()
            invariant
                i <= self.values@.len(),
                values@.len() == i,
                forall|j: int| 0 <= j < i ==> values@[j]@ == self.values@[j]@,
            decreases self.values@.len() - i,
        {
            values.push(self.values[i].clone());
            i = i + 1;
        }
        let r = Record { values };
        proof {
            assert(r@ =~= self@);
        }
        r
    }
}

/// Outcome of a cursor operation that may need a page that is not yet
/// resident: `Ready` means the operation completed; `IO` means a page
/// fetch was enqueued and the same operation must be re-driven after the
/// page arrives.
#[derive(Clone, Copy, PartialEq, Eq, Structural, Debug)]
pub enum CursorResult {
    Ready,
    IO,
}

} // verus!
