//! The ten object classes and the three dataset splits.

use crate::error::IndexError;
use crate::text::str_eq;
use vstd::prelude::*;

verus! {

/// One split of the dataset.
#[derive(Debug, Clone, Copy, PartialEq, Eq, Hash, Structural)]
pub enum DataSet {
    Train,
    Test,
    Valid,
}

/// The split that a label names, if it names one.
pub open spec fn data_set_named(s: Seq<char>) -> Option<DataSet> {
    if s == "train"@ {
        Some(DataSet::Train)
    } else if s == "test"@ {
        Some(DataSet::Test)
    } else if s == "valid"@ {
        Some(DataSet::Valid)
    } else {
        None
    }
}

impl DataSet {
    /// The lower-case label of the split, which is also the name of its
    /// directory.
    pub open spec fn spec_name(self) -> Seq<char> {
        match self {
            DataSet::Train => "train"@,
            DataSet::Test => "test"@,
            DataSet::Valid => "valid"@,
        }
    }

    /// The lower-case label of the split.
    pub fn name(&self) -> (r: &'static str)
        ensures
            r@ == self.spec_name(),
    {
        match self {
            DataSet::Train => "train",
            DataSet::Test => "test",
            DataSet::Valid => "valid",
        }
    }

    /// The label as an owned string.
    pub fn to_string(&self) -> (r: String)
        ensures
            r@ == self.spec_name(),
    {
        self.name().to_owned()
    }

    /// Reads a split from its label. Only the three exact lower-case labels
    /// are accepted.
    pub fn from_str(s: &str) -> (r: Result<DataSet, IndexError>)
        ensures
            r == match data_set_named(s@) {
                Some(d) => Ok::<DataSet, IndexError>(d),
                None => Err(IndexError::ParseError),
            },
    {
        if str_eq(s, "train") {
            Ok(DataSet::Train)
        } else if str_eq(s, "test") {
            Ok(DataSet::Test)
        } else if str_eq(s, "valid") {
            Ok(DataSet::Valid)
        } else {
            Err(IndexError::ParseError)
        }
    }
}

/// One of the ten classes of the dataset.
#[derive(Debug, Clone, Copy, PartialEq, Eq, Hash, Structural)]
pub enum ObjectClass {
    Airplane,
    Automobile,
    Bird,
    Cat,
    Deer,
    Dog,
    Frog,
    Horse,
    Ship,
    Truck,
}

/// The classes in their declared order, which is the order in which a split's
/// catalogue lists them.
pub open spec fn class_order() -> Seq<ObjectClass> {
    seq![
        ObjectClass::Airplane,
        ObjectClass::Automobile,
        ObjectClass::Bird,
        ObjectClass::Cat,
        ObjectClass::Deer,
        ObjectClass::Dog,
        ObjectClass::Frog,
        ObjectClass::Horse,
        ObjectClass::Ship,
        ObjectClass::Truck,
    ]
}

/// The class that a label names, if it names one.
pub open spec fn class_named(s: Seq<char>) -> Option<ObjectClass> {
    if s == "airplane"@ {
        Some(ObjectClass::Airplane)
    } else if s == "automobile"@ {
        Some(ObjectClass::Automobile)
    } else if s == "bird"@ {
        Some(ObjectClass::Bird)
    } else if s == "cat"@ {
        Some(ObjectClass::Cat)
    } else if s == "deer"@ {
        Some(ObjectClass::Deer)
    } else if s == "dog"@ {
        Some(ObjectClass::Dog)
    } else if s == "frog"@ {
        Some(ObjectClass::Frog)
    } else if s == "horse"@ {
        Some(ObjectClass::Horse)
    } else if s == "ship"@ {
        Some(ObjectClass::Ship)
    } else if s == "truck"@ {
        Some(ObjectClass::Truck)
    } else {
        None
    }
}

impl ObjectClass {
    /// Number of classes.
    pub const COUNT: usize = 10;

    /// Position of the class in the declared order.
    pub open spec fn ordinal(self) -> int {
        match self {
            ObjectClass::Airplane => 0,
            ObjectClass::Automobile => 1,
            ObjectClass::Bird => 2,
            ObjectClass::Cat => 3,
            ObjectClass::Deer => 4,
            ObjectClass::Dog => 5,
            ObjectClass::Frog => 6,
            ObjectClass::Horse => 7,
            ObjectClass::Ship => 8,
            ObjectClass::Truck => 9,
        }
    }

    /// The lower-case label of the class, which is also the name of its
    /// directory inside a split.
    pub open spec fn spec_name(self) -> Seq<char> {
        match self {
            ObjectClass::Airplane => "airplane"@,
            ObjectClass::Automobile => "automobile"@,
            ObjectClass::Bird => "bird"@,
            ObjectClass::Cat => "cat"@,
            ObjectClass::Deer => "deer"@,
            ObjectClass::Dog => "dog"@,
            ObjectClass::Frog => "frog"@,
            ObjectClass::Horse => "horse"@,
            ObjectClass::Ship => "ship"@,
            ObjectClass::Truck => "truck"@,
        }
    }

    /// The lower-case label of the class.
    pub fn name(&self) -> (r: &'static str)
        ensures
            r@ == self.spec_name(),
    {
        match self {
            ObjectClass::Airplane => "airplane",
            ObjectClass::Automobile => "automobile",
            ObjectClass::Bird => "bird",
            ObjectClass::Cat => "cat",
            ObjectClass::Deer => "deer",
            ObjectClass::Dog => "dog",
            ObjectClass::Frog => "frog",
            ObjectClass::Horse => "horse",
            ObjectClass::Ship => "ship",
            ObjectClass::Truck => "truck",
        }
    }

    /// The label as an owned string.
    pub fn to_string(&self) -> (r: String)
        ensures
            r@ == self.spec_name(),
    {
        self.name().to_owned()
    }

    /// Position of the class in the declared order.
    pub fn index(&self) -> (r: usize)
        ensures
            r == self.ordinal(),
            r < Self::COUNT,
            class_order()[r as int] == *self,
    {
        match self {
            ObjectClass::Airplane => 0,
            ObjectClass::Automobile => 1,
            ObjectClass::Bird => 2,
            ObjectClass::Cat => 3,
            ObjectClass::Deer => 4,
            ObjectClass::Dog => 5,
            ObjectClass::Frog => 6,
            ObjectClass::Horse => 7,
            ObjectClass::Ship => 8,
            ObjectClass::Truck => 9,
        }
    }

    /// The class at a position of the declared order.
    pub fn from_index(i: usize) -> (r: Option<ObjectClass>)
        ensures
            r == if i < Self::COUNT {
                Some(class_order()[i as int])
            } else {
                None
            },
    {
        match i {
            0 => Some(ObjectClass::Airplane),
            1 => Some(ObjectClass::Automobile),
            2 => Some(ObjectClass::Bird),
            3 => Some(ObjectClass::Cat),
            4 => Some(ObjectClass::Deer),
            5 => Some(ObjectClass::Dog),
            6 => Some(ObjectClass::Frog),
            7 => Some(ObjectClass::Horse),
            8 => Some(ObjectClass::Ship),
            9 => Some(ObjectClass::Truck),
            _ => None,
        }
    }

    /// All classes, in the declared order.
    pub fn all() -> (r: Vec<ObjectClass>)
        ensures
            r@ == class_order(),
    {
        let mut out: Vec<ObjectClass> = Vec::new();
        out.push(ObjectClass::Airplane);
        out.push(ObjectClass::Automobile);
        out.push(ObjectClass::Bird);
        out.push(ObjectClass::Cat);
        out.push(ObjectClass::Deer);
        out.push(ObjectClass::Dog);
        out.push(ObjectClass::Frog);
        out.push(ObjectClass::Horse);
        out.push(ObjectClass::Ship);
        out.push(ObjectClass::Truck);
        assert(out@ =~= class_order());
        out
    }

    /// Reads a class from its label. Only the ten exact lower-case labels are
    /// accepted.
    pub fn from_str(s: &str) -> (r: Result<ObjectClass, IndexError>)
        ensures
            r == match class_named(s@) {
                Some(c) => Ok::<ObjectClass, IndexError>(c),
                None => Err(IndexError::ParseError),
            },
    {
        if str_eq(s, "airplane") {
            Ok(ObjectClass::Airplane)
        } else if str_eq(s, "automobile") {
            Ok(ObjectClass::Automobile)
        } else if str_eq(s, "bird") {
            Ok(ObjectClass::Bird)
        } else if str_eq(s, "cat") {
            Ok(ObjectClass::Cat)
        } else if str_eq(s, "deer") {
            Ok(ObjectClass::Deer)
        } else if str_eq(s, "dog") {
            Ok(ObjectClass::Dog)
        } else if str_eq(s, "frog") {
            Ok(ObjectClass::Frog)
        } else if str_eq(s, "horse") {
            Ok(ObjectClass::Horse)
        } else if str_eq(s, "ship") {
            Ok(ObjectClass::Ship)
        } else if str_eq(s, "truck") {
            Ok(ObjectClass::Truck)
        } else {
            Err(IndexError::ParseError)
        }
    }
}

/// Every class is read back from its own label, and a label names at most the
/// class whose label it is.
pub proof fn lemma_class_label_round_trip(c: ObjectClass)
    ensures
        class_named(c.spec_name()) == Some(c),
        forall|s: Seq<char>| class_named(s) == Some(c) ==> s == c.spec_name(),
{
    reveal_strlit("airplane");
    reveal_strlit("automobile");
    reveal_strlit("bird");
    reveal_strlit("cat");
    reveal_strlit("deer");
    reveal_strlit("dog");
    reveal_strlit("frog");
    reveal_strlit("horse");
    reveal_strlit("ship");
    reveal_strlit("truck");
    assert("airplane"@.len() == 8);
    assert("automobile"@.len() == 10);
    assert("bird"@[0] == 'b');
    assert("cat"@.len() == 3);
    assert("deer"@[1] == 'e');
    assert("dog"@[1] == 'o');
    assert("frog"@[0] == 'f');
    assert("horse"@.len() == 5);
    assert("ship"@[0] == 's');
    assert("truck"@[0] == 't');
}

/// Every split is read back from its own label, and a label names at most the
/// split whose label it is.
pub proof fn lemma_data_set_label_round_trip(d: DataSet)
    ensures
        data_set_named(d.spec_name()) == Some(d),
        forall|s: Seq<char>| data_set_named(s) == Some(d) ==> s == d.spec_name(),
{
    reveal_strlit("train");
    reveal_strlit("test");
    reveal_strlit("valid");
    assert("train"@.len() == 5);
    assert("test"@.len() == 4);
    assert("valid"@[0] == 'v');
    assert("train"@[0] == 't');
}

} // verus!
