//! Typed representation of a catalog record and its nested entities, with
//! the mathematical models the contracts speak of.

use vstd::prelude::*;

verus! {

/// The universal envelope for every entity in a catalog (package, channel,
/// bundle, ...). A record uses only the subset of fields relevant to its
/// kind; absence of a field is meaningful and never fails decoding. A record
/// is valid only when both `schema` and `name` are present.
#[derive(Clone, Debug, PartialEq)]
pub struct DeclarativeConfig {
    pub schema: Option<String>,
    pub name: Option<String>,
    pub default_channel: Option<String>,
    pub description: Option<String>,
    pub package: Option<String>,
    pub entries: Option<Vec<ChannelEntry>>,
    pub properties: Option<Vec<Property>>,
    pub image: Option<String>,
    pub related_images: Option<Vec<RelatedImage>>,
}

/// One entry of a channel graph; order within `entries` is meaningful.
#[derive(Clone, Debug, PartialEq)]
pub struct ChannelEntry {
    pub name: String,
    pub replaces: Option<String>,
    pub skips: Option<Vec<String>>,
    pub skip_range: Option<String>,
}

/// A container image related to a record.
#[derive(Clone, Debug, PartialEq)]
pub struct RelatedImage {
    pub name: String,
    pub image: String,
}

/// The identity header shared by all record kinds.
#[derive(Clone, Debug, PartialEq)]
pub struct Meta {
    pub schema: String,
    pub package: String,
    pub name: String,
}

/// A typed assertion attached to a record.
#[derive(Clone, Debug, PartialEq)]
pub struct Property {
    pub type_prop: String,
    pub value: Value,
}

/// Structured form of a property value. Raw input may give it either as a
/// bare string or as an object; see the flexible value decoding rules.
#[derive(Clone, Debug, PartialEq)]
pub struct Value {
    pub group: Option<String>,
    pub kind: Option<String>,
    pub version: Option<String>,
    pub package_name: Option<String>,
}

/// Why decoding a document into a record failed.
#[derive(Clone, Copy, Debug, PartialEq, Eq, Structural)]
pub enum DecodeError {
    /// The raw text could not be parsed in the detected format.
    Syntax,
    /// The document is not an object.
    NotAnObject,
    /// A field holds a value of a shape the model does not allow there.
    WrongType,
    /// A required field is absent.
    MissingField,
}

/// Model of a record: every text field as a sequence of characters.
pub struct ConfigModel {
    pub schema: Option<Seq<char>>,
    pub name: Option<Seq<char>>,
    pub default_channel: Option<Seq<char>>,
    pub description: Option<Seq<char>>,
    pub package: Option<Seq<char>>,
    pub entries: Option<Seq<EntryModel>>,
    pub properties: Option<Seq<PropertyModel>>,
    pub image: Option<Seq<char>>,
    pub related_images: Option<Seq<ImageModel>>,
}

/// Model of a channel entry.
pub struct EntryModel {
    pub name: Seq<char>,
    pub replaces: Option<Seq<char>>,
    pub skips: Option<Seq<Seq<char>>>,
    pub skip_range: Option<Seq<char>>,
}

/// Model of a related image.
pub struct ImageModel {
    pub name: Seq<char>,
    pub image: Seq<char>,
}

/// Model of a property.
pub struct PropertyModel {
    pub type_prop: Seq<char>,
    pub value: ValueModel,
}

/// Model of a structured property value.
pub struct ValueModel {
    pub group: Option<Seq<char>>,
    pub kind: Option<Seq<char>>,
    pub version: Option<Seq<char>>,
    pub package_name: Option<Seq<char>>,
}

impl DeepView for DeclarativeConfig {
    type V = ConfigModel;

    open spec fn deep_view(&self) -> ConfigModel {
        ConfigModel {
            schema: self.schema.deep_view(),
            name: self.name.deep_view(),
            default_channel: self.default_channel.deep_view(),
            description: self.description.deep_view(),
            package: self.package.deep_view(),
            entries: self.entries.deep_view(),
            properties: self.properties.deep_view(),
            image: self.image.deep_view(),
            related_images: self.related_images.deep_view(),
        }
    }
}

impl DeepView for ChannelEntry {
    type V = EntryModel;

    open spec fn deep_view(&self) -> EntryModel {
        EntryModel {
            name: self.name@,
            replaces: self.replaces.deep_view(),
            skips: self.skips.deep_view(),
            skip_range: self.skip_range.deep_view(),
        }
    }
}

impl DeepView for RelatedImage {
    type V = ImageModel;

    open spec fn deep_view(&self) -> ImageModel {
        ImageModel { name: self.name@, image: self.image@ }
    }
}

impl DeepView for Property {
    type V = PropertyModel;

    open spec fn deep_view(&self) -> PropertyModel {
        PropertyModel { type_prop: self.type_prop@, value: self.value.deep_view() }
    }
}

impl DeepView for Value {
    type V = ValueModel;

    open spec fn deep_view(&self) -> ValueModel {
        ValueModel {
            group: self.group.deep_view(),
            kind: self.kind.deep_view(),
            version: self.version.deep_view(),
            package_name: self.package_name.deep_view(),
        }
    }
}

impl DeclarativeConfig {
    /// A record is valid when both identity fields decoded.
    pub open spec fn spec_is_valid(&self) -> bool {
        self.schema is Some && self.name is Some
    }

    /// Whether both identity fields (`schema`, `name`) are present.
    pub fn is_valid(&self) -> (r: bool)
        ensures
            r == self.spec_is_valid(),
    {
        self.schema.is_some() && self.name.is_some()
    }
}

} // verus!
