//! The declarations of a schema: models with typed fields, and enums.
//!
//! Types and enums refer to one another by name only, so a schema with a
//! dangling or circular reference is still a value of these types.

use vstd::prelude::*;
use vstd::string::*;

verus! {

/// The type of a field: one of the built-in types, or a declared type given by its name.
#[derive(Debug, Clone)]
pub enum DataType {
    UUID,
    String,
    DateTime,
    Data,
    Int,
    Float,
    Boolean,
    Enum(String),
}

/// What is said of a field beyond its type.
#[derive(Debug, Clone)]
pub enum Attribute {
    Queryable,
    /// The default value, as it is written in the source.
    Default(String),
    Optional,
}

/// A model: a name and the fields that its records have.
#[derive(Debug, Clone)]
pub struct Model {
    pub name: String,
    pub fields: Vec<Field>,
}

/// A field of a model.
#[derive(Debug, Clone)]
pub struct Field {
    pub name: String,
    pub data_type: DataType,
    pub attributes: Vec<Attribute>,
    /// For an array field, the name of the element type as it is written in the source.
    pub inner_type: Option<String>,
}

/// A variant of an enum.
#[derive(Debug, Clone)]
pub enum EnumValue {
    Variant(String),
}

/// An enum: a name and the variants that its values range over.
#[derive(Debug, Clone)]
pub struct Enum {
    pub name: String,
    pub values: Vec<EnumValue>,
}

/// What a data type is to specifications.
pub enum DataTypeView {
    UUID,
    String,
    DateTime,
    Data,
    Int,
    Float,
    Boolean,
    Enum(Seq<char>),
}

/// What an attribute is to specifications.
pub enum AttributeView {
    Queryable,
    Default(Seq<char>),
    Optional,
}

/// What a field is to specifications.
pub struct FieldView {
    pub name: Seq<char>,
    pub data_type: DataTypeView,
    pub attributes: Seq<AttributeView>,
    pub inner_type: Option<Seq<char>>,
}

/// What a model is to specifications.
pub struct ModelView {
    pub name: Seq<char>,
    pub fields: Seq<FieldView>,
}

/// What an enum is to specifications.
pub struct EnumView {
    pub name: Seq<char>,
    /// The names of the variants, in the order of their declaration.
    pub values: Seq<Seq<char>>,
}

impl View for DataType {
    type V = DataTypeView;

    open spec fn view(&self) -> DataTypeView {
        match *self {
            DataType::UUID => DataTypeView::UUID,
            DataType::String => DataTypeView::String,
            DataType::DateTime => DataTypeView::DateTime,
            DataType::Data => DataTypeView::Data,
            DataType::Int => DataTypeView::Int,
            DataType::Float => DataTypeView::Float,
            DataType::Boolean => DataTypeView::Boolean,
            DataType::Enum(name) => DataTypeView::Enum(name@),
        }
    }
}

impl View for Attribute {
    type V = AttributeView;

    open spec fn view(&self) -> AttributeView {
        match *self {
            Attribute::Queryable => AttributeView::Queryable,
            Attribute::Default(value) => AttributeView::Default(value@),
            Attribute::Optional => AttributeView::Optional,
        }
    }
}

impl View for EnumValue {
    type V = Seq<char>;

    open spec fn view(&self) -> Seq<char> {
        match *self {
            EnumValue::Variant(name) => name@,
        }
    }
}

/// The attributes as specifications see them, in their order.
pub open spec fn attributes_view(attributes: Seq<Attribute>) -> Seq<AttributeView> {
    Seq::new(attributes.len(), |i: int| attributes[i]@)
}

/// The fields as specifications see them, in their order.
pub open spec fn fields_view(fields: Seq<Field>) -> Seq<FieldView> {
    Seq::new(fields.len(), |i: int| fields[i]@)
}

/// The names of the variants, in their order.
pub open spec fn values_view(values: Seq<EnumValue>) -> Seq<Seq<char>> {
    Seq::new(values.len(), |i: int| values[i]@)
}

/// The characters of an optional name.
pub open spec fn name_view(name: Option<String>) -> Option<Seq<char>> {
    match name {
        Some(n) => Some(n@),
        None => None,
    }
}

impl View for Field {
    type V = FieldView;

    open spec fn view(&self) -> FieldView {
        FieldView {
            name: self.name@,
            data_type: self.data_type@,
            attributes: attributes_view(self.attributes@),
            inner_type: name_view(self.inner_type),
        }
    }
}

impl View for Model {
    type V = ModelView;

    open spec fn view(&self) -> ModelView {
        ModelView { name: self.name@, fields: fields_view(self.fields@) }
    }
}

impl View for Enum {
    type V = EnumView;

    open spec fn view(&self) -> EnumView {
        EnumView { name: self.name@, values: values_view(self.values@) }
    }
}

impl DataType {
    /// A copy that denotes the same type.
    pub fn duplicate(&self) -> (copy: DataType)
        ensures
            copy@ == self@,
    {
        match self {
            DataType::UUID => DataType::UUID,
            DataType::String => DataType::String,
            DataType::DateTime => DataType::DateTime,
            DataType::Data => DataType::Data,
            DataType::Int => DataType::Int,
            DataType::Float => DataType::Float,
            DataType::Boolean => DataType::Boolean,
            DataType::Enum(name) => DataType::Enum(name.clone()),
        }
    }
}

impl Attribute {
    /// A copy that denotes the same attribute.
    pub fn duplicate(&self) -> (copy: Attribute)
        ensures
            copy@ == self@,
    {
        match self {
            Attribute::Queryable => Attribute::Queryable,
            Attribute::Default(value) => Attribute::Default(value.clone()),
            Attribute::Optional => Attribute::Optional,
        }
    }
}

impl EnumValue {
    /// The name of the variant.
    pub fn name(&self) -> (name: &String)
        ensures
            name@ == self@,
    {
        match self {
            EnumValue::Variant(name) => name,
        }
    }

    /// A copy that denotes the same variant.
    pub fn duplicate(&self) -> (copy: EnumValue)
        ensures
            copy@ == self@,
    {
        match self {
            EnumValue::Variant(name) => EnumValue::Variant(name.clone()),
        }
    }
}

impl Field {
    /// A copy with the same name, type and attributes.
    pub fn duplicate(&self) -> (copy: Field)
        ensures
            copy@ == self@,
    {
        let mut attributes: Vec<Attribute> = Vec::new();
        let mut i: usize = 0;
        while i < self.attributes.len()
            invariant
                i <= self.attributes.len(),
                attributes.len() == i,
                forall|j: int| 0 <= j < i ==> attributes@[j]@ == self.attributes@[j]@,
            decreases self.attributes.len() - i,
        {
            attributes.push(self.attributes[i].duplicate());
            i += 1;
        }
        assert(attributes_view(attributes@) =~= attributes_view(self.attributes@));
        let inner_type = match &self.inner_type {
            Some(name) => Some(name.clone()),
            None => None,
        };
        Field { name: self.name.clone(), data_type: self.data_type.duplicate(), attributes, inner_type }
    }
}

impl Model {
    /// A copy with the same name and fields.
    pub fn duplicate(&self) -> (copy: Model)
        ensures
            copy@ == self@,
    {
        let mut fields: Vec<Field> = Vec::new();
        let mut i: usize = 0;
        while i < self.fields.len()
            invariant
                i <= self.fields.len(),
                fields.len() == i,
                forall|j: int| 0 <= j < i ==> fields@[j]@ == self.fields@[j]@,
            decreases self.fields.len() - i,
        {
            fields.push(self.fields[i].duplicate());
            i += 1;
        }
        assert(fields_view(fields@) =~= fields_view(self.fields@));
        Model { name: self.name.clone(), fields }
    }
}

impl Enum {
    /// A copy with the same name and variants.
    pub fn duplicate(&self) -> (copy: Enum)
        ensures
            copy@ == self@,
    {
        let mut values: Vec<EnumValue> = Vec::new();
        let mut i: usize = 0;
        while i < self.values.len()
            invariant
                i <= self.values.len(),
                values.len() == i,
                forall|j: int| 0 <= j < i ==> values@[j]@ == self.values@[j]@,
            decreases self.values.len() - i,
        {
            values.push(self.values[i].duplicate());
            i += 1;
        }
        assert(values_view(values@) =~= values_view(self.values@));
        Enum { name: self.name.clone(), values }
    }
}

} // verus!
