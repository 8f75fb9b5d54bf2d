use vstd::prelude::*;
use crate::text::str_eq;

verus! {

/// Storage size of an integer or of a memory access.
#[derive(Debug, Clone, Copy, PartialEq, Eq, Structural)]
pub enum ChunkSize {
    Byte,
    Word,
    Dword,
    Qword,
}

impl ChunkSize {
    /// Number of bytes of the size.
    pub open spec fn bytes(self) -> nat {
        match self {
            ChunkSize::Byte => 1,
            ChunkSize::Word => 2,
            ChunkSize::Dword => 4,
            ChunkSize::Qword => 8,
        }
    }

    /// The wider of two sizes.
    pub open spec fn wider(self, other: ChunkSize) -> ChunkSize {
        if self.bytes() >= other.bytes() {
            self
        } else {
            other
        }
    }

    /// Number of bytes of the size.
    pub fn byte_count(self) -> (n: u8)
        ensures
            n == self.bytes(),
    {
        match self {
            ChunkSize::Byte => 1,
            ChunkSize::Word => 2,
            ChunkSize::Dword => 4,
            ChunkSize::Qword => 8,
        }
    }

    /// The wider of two sizes.
    pub fn max(self, other: ChunkSize) -> (w: ChunkSize)
        ensures
            w == self.wider(other),
    {
        if self.byte_count() >= other.byte_count() {
            self
        } else {
            other
        }
    }
}

/// Type of a value of the language.
#[derive(Debug, PartialEq)]
pub enum DataType {
    Boolean,
    Character,
    Integer(ChunkSize),
    Pointer,
    String,
    Custom(String),
}

/// A `DataType` with the name of a custom type as text: two custom types are
/// the same type when they have the same name.
pub ghost enum DataTypeView {
    Boolean,
    Character,
    Integer(ChunkSize),
    Pointer,
    String,
    Custom(Seq<char>),
}

impl View for DataType {
    type V = DataTypeView;

    open spec fn view(&self) -> DataTypeView {
        match self {
            DataType::Boolean => DataTypeView::Boolean,
            DataType::Character => DataTypeView::Character,
            DataType::Integer(size) => DataTypeView::Integer(*size),
            DataType::Pointer => DataTypeView::Pointer,
            DataType::String => DataTypeView::String,
            DataType::Custom(name) => DataTypeView::Custom(name@),
        }
    }
}

impl Clone for DataType {
    fn clone(&self) -> (copy: Self)
        ensures
            copy == *self,
    {
        match self {
            DataType::Boolean => DataType::Boolean,
            DataType::Character => DataType::Character,
            DataType::Integer(size) => DataType::Integer(*size),
            DataType::Pointer => DataType::Pointer,
            DataType::String => DataType::String,
            DataType::Custom(name) => DataType::Custom(name.clone()),
        }
    }
}

impl DataType {
    /// Whether this is the same type as `other`.
    pub fn same_as(&self, other: &DataType) -> (same: bool)
        ensures
            same == (self@ == other@),
    {
        match (self, other) {
            (DataType::Boolean, DataType::Boolean) => true,
            (DataType::Character, DataType::Character) => true,
            (DataType::Integer(a), DataType::Integer(b)) => a.byte_count() == b.byte_count(),
            (DataType::Pointer, DataType::Pointer) => true,
            (DataType::String, DataType::String) => true,
            (DataType::Custom(a), DataType::Custom(b)) => str_eq(a.as_str(), b.as_str()),
            _ => false,
        }
    }

    /// The type that `name` stands for, the name kept as it is for a custom type.
    pub open spec fn of_name(name: String) -> DataType {
        if name@ == "bool"@ {
            DataType::Boolean
        } else if name@ == "char"@ {
            DataType::Character
        } else if name@ == "int"@ {
            DataType::Integer(ChunkSize::Qword)
        } else if name@ == "ptr"@ {
            DataType::Pointer
        } else if name@ == "str"@ {
            DataType::String
        } else {
            DataType::Custom(name)
        }
    }

    /// The type that `name` stands for.
    pub fn from_name(name: &String) -> (typ: DataType)
        ensures
            typ == DataType::of_name(*name),
    {
        let text = name.as_str();
        if str_eq(text, "bool") {
            DataType::Boolean
        } else if str_eq(text, "char") {
            DataType::Character
        } else if str_eq(text, "int") {
            DataType::Integer(ChunkSize::Qword)
        } else if str_eq(text, "ptr") {
            DataType::Pointer
        } else if str_eq(text, "str") {
            DataType::String
        } else {
            DataType::Custom(name.clone())
        }
    }
}

/// The type that the text `name` stands for: `bool`, `char`, `int` (eight
/// bytes wide), `ptr` and `str` are built in, any other name is a custom type.
pub open spec fn datatype_named(name: Seq<char>) -> DataTypeView {
    if name == "bool"@ {
        DataTypeView::Boolean
    } else if name == "char"@ {
        DataTypeView::Character
    } else if name == "int"@ {
        DataTypeView::Integer(ChunkSize::Qword)
    } else if name == "ptr"@ {
        DataTypeView::Pointer
    } else if name == "str"@ {
        DataTypeView::String
    } else {
        DataTypeView::Custom(name)
    }
}

/// The type that the text `string` stands for.
pub fn datatype_from_string(string: &str) -> (typ: DataType)
    ensures
        typ@ == datatype_named(string@),
{
    if str_eq(string, "bool") {
        DataType::Boolean
    } else if str_eq(string, "char") {
        DataType::Character
    } else if str_eq(string, "int") {
        DataType::Integer(ChunkSize::Qword)
    } else if str_eq(string, "ptr") {
        DataType::Pointer
    } else if str_eq(string, "str") {
        DataType::String
    } else {
        DataType::Custom(string.to_string())
    }
}

} // verus!
