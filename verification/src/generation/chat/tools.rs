//! The schema model: what a tool is called, what it does and which
//! parameters it takes.

use crate::generation::chat::value::{kind_of, WireModel, WireValue};
use vstd::prelude::*;

verus! {

/// The deepest nesting of parameters that a schema may have. A lone string
/// parameter has depth one.
pub const MAX_SCHEMA_DEPTH: usize = 64;

/// Mathematical model of a parameter.
pub ghost enum ParameterModel {
    Object { properties: Seq<PropertyModel>, required: Seq<Seq<char>> },
    String { description: Option<Seq<char>> },
    Unknown { wire: WireModel },
}

/// Mathematical model of a named property of an object parameter.
pub ghost struct PropertyModel {
    pub name: Seq<char>,
    pub schema: ParameterModel,
}

/// Mathematical model of a function tool.
pub ghost struct ToolModel {
    pub name: Seq<char>,
    pub description: Seq<char>,
    pub parameters: ParameterModel,
}

/// Mathematical model of a tool descriptor.
pub ghost enum DescriptorModel {
    Function { tool: ToolModel },
    Unknown { wire: WireModel },
}

/// `kind` is a kind of parameter that the library knows.
pub open spec fn known_parameter_kind(kind: Seq<char>) -> bool {
    kind == "object"@ || kind == "string"@
}

/// `kind` is a kind of tool that the library knows.
pub open spec fn known_tool_kind(kind: Seq<char>) -> bool {
    kind == "function"@
}

/// `wire` stands for a parameter of a kind that the library does not
/// know: it names a kind, and the kind is none of the known ones.
pub open spec fn unknown_parameter(wire: WireModel) -> bool {
    match kind_of(wire) {
        Some(kind) => !known_parameter_kind(kind),
        None => false,
    }
}

/// `wire` stands for a tool of a kind that the library does not know.
pub open spec fn unknown_tool(wire: WireModel) -> bool {
    match kind_of(wire) {
        Some(kind) => !known_tool_kind(kind),
        None => false,
    }
}

/// The names of `properties`, in order.
pub open spec fn property_names(properties: Seq<PropertyModel>) -> Seq<Seq<char>> {
    Seq::new(properties.len(), |i: int| properties[i].name)
}

impl ParameterModel {
    /// The parameter nests no deeper than `limit` levels.
    pub open spec fn fits(self, limit: nat) -> bool
        decreases self,
    {
        limit > 0 && match self {
            ParameterModel::String { .. } => true,
            ParameterModel::Unknown { .. } => true,
            ParameterModel::Object { properties, .. } => forall|i: int|
                0 <= i < properties.len() ==> (#[trigger] properties[i]).schema.fits(
                    (limit - 1) as nat,
                ),
        }
    }

    /// No object, at any level, names a property twice.
    pub open spec fn names_unique(self) -> bool
        decreases self,
    {
        match self {
            ParameterModel::String { .. } => true,
            ParameterModel::Unknown { .. } => true,
            ParameterModel::Object { properties, .. } => {
                &&& property_names(properties).no_duplicates()
                &&& forall|i: int|
                    0 <= i < properties.len() ==> (#[trigger] properties[i]).schema.names_unique()
            },
        }
    }

    /// Every object, at any level, requires only properties that it has.
    pub open spec fn required_known(self) -> bool
        decreases self,
    {
        match self {
            ParameterModel::String { .. } => true,
            ParameterModel::Unknown { .. } => true,
            ParameterModel::Object { properties, required } => {
                &&& forall|j: int|
                    0 <= j < required.len() ==> property_names(properties).contains(
                        #[trigger] required[j],
                    )
                &&& forall|i: int|
                    0 <= i < properties.len() ==> (#[trigger] properties[i]).schema.required_known()
            },
        }
    }

    /// Every parameter kept as of unknown kind, at any level, names a
    /// kind, and one that the library does not know.
    pub open spec fn kinds_kept(self) -> bool
        decreases self,
    {
        match self {
            ParameterModel::String { .. } => true,
            ParameterModel::Unknown { wire } => unknown_parameter(wire),
            ParameterModel::Object { properties, .. } => forall|i: int|
                0 <= i < properties.len() ==> (#[trigger] properties[i]).schema.kinds_kept(),
        }
    }

    /// The first reason, if any, for which the parameter is refused as a
    /// schema: too deep, then a repeated property name, then a required name
    /// that is no property, then a known kind kept as unknown.
    pub open spec fn defect(self) -> Option<SchemaError> {
        if !self.fits(MAX_SCHEMA_DEPTH as nat) {
            Some(SchemaError::TooDeep)
        } else if !self.names_unique() {
            Some(SchemaError::DuplicateProperty)
        } else if !self.required_known() {
            Some(SchemaError::UnknownRequired)
        } else if !self.kinds_kept() {
            Some(SchemaError::MisfiledKind)
        } else {
            None
        }
    }

    /// The parameter is a well-formed schema.
    pub open spec fn valid(self) -> bool {
        self.defect() is None
    }
}

impl ToolModel {
    /// The tool's parameters are a well-formed schema.
    pub open spec fn valid(self) -> bool {
        self.parameters.valid()
    }
}

impl DescriptorModel {
    /// The reason, if any, for which the descriptor is refused: that of
    /// its parameters, for a function; for a tool kept as of unknown kind,
    /// that it names a known kind or none.
    pub open spec fn defect(self) -> Option<SchemaError> {
        match self {
            DescriptorModel::Function { tool } => tool.parameters.defect(),
            DescriptorModel::Unknown { wire } => if unknown_tool(wire) {
                None
            } else {
                Some(SchemaError::MisfiledKind)
            },
        }
    }

    /// The descriptor is well formed.
    pub open spec fn valid(self) -> bool {
        self.defect() is None
    }
}

/// Why a descriptor is refused.
#[derive(Clone, Copy, Debug, PartialEq, Eq, Structural)]
pub enum SchemaError {
    /// The parameters nest deeper than `MAX_SCHEMA_DEPTH`.
    TooDeep,
    /// An object names a property twice.
    DuplicateProperty,
    /// An object requires a name that is none of its properties.
    UnknownRequired,
    /// What is kept as of unknown kind names a kind that the library
    /// knows, or none.
    MisfiledKind,
    /// A tool of the same name is registered already.
    DuplicateTool,
    /// A tool of a kind that the library does not know cannot be
    /// registered.
    UnknownKind,
}

/// A tool that a model may ask to have invoked. A tool of a kind that the
/// library does not know is kept as it came over the wire.
#[derive(Debug, PartialEq, Eq)]
pub enum RawTool {
    Function(Function),
    Unknown(WireValue),
}

/// The function form of a tool.
#[derive(Debug, PartialEq, Eq)]
pub struct Function {
    pub function: FunctionDetails,
}

/// Name, purpose and parameters of a function.
#[derive(Debug, PartialEq, Eq)]
pub struct FunctionDetails {
    pub name: String,
    pub description: String,
    pub parameters: FunctionParameter,
}

/// A parameter: an object with named properties, or a string. A
/// parameter of a kind that the library does not know is kept as it came
/// over the wire.
#[derive(Debug, PartialEq, Eq)]
pub enum FunctionParameter {
    Object(ObjectParameter),
    String(StringParameter),
    Unknown(WireValue),
}

/// An object parameter. Its properties are kept in the order given; their
/// names are unique in a valid schema.
#[derive(Debug, PartialEq, Eq)]
pub struct ObjectParameter {
    pub properties: Vec<Property>,
    pub required: Vec<String>,
}

/// One named property of an object parameter.
#[derive(Debug, PartialEq, Eq)]
pub struct Property {
    pub name: String,
    pub schema: FunctionParameter,
}

/// A string parameter.
#[derive(Debug, PartialEq, Eq)]
pub struct StringParameter {
    pub description: Option<String>,
}

/// The views of `texts`, in order.
pub open spec fn text_views(texts: Seq<String>) -> Seq<Seq<char>> {
    Seq::new(texts.len(), |i: int| texts[i]@)
}

/// The models of `properties`, in order.
pub open spec fn property_views(properties: Seq<Property>) -> Seq<PropertyModel> {
    Seq::new(properties.len(), |i: int| properties[i]@)
}

/// The view of an optional text.
pub open spec fn optional_text_view(text: Option<String>) -> Option<Seq<char>> {
    match text {
        Some(t) => Some(t@),
        None => None,
    }
}

/// The model of `parameter`.
pub open spec fn parameter_model(parameter: FunctionParameter) -> ParameterModel
    decreases parameter,
{
    match parameter {
        FunctionParameter::Object(object) => ParameterModel::Object {
            properties: Seq::new(
                object.properties@.len(),
                |i: int|
                    if 0 <= i < object.properties@.len() {
                        PropertyModel {
                            name: object.properties@[i].name@,
                            schema: parameter_model(object.properties@[i].schema),
                        }
                    } else {
                        arbitrary()
                    },
            ),
            required: text_views(object.required@),
        },
        FunctionParameter::String(string) => ParameterModel::String {
            description: optional_text_view(string.description),
        },
        FunctionParameter::Unknown(wire) => ParameterModel::Unknown { wire: wire@ },
    }
}

impl View for FunctionParameter {
    type V = ParameterModel;

    open spec fn view(&self) -> ParameterModel {
        parameter_model(*self)
    }
}

impl View for Property {
    type V = PropertyModel;

    open spec fn view(&self) -> PropertyModel {
        PropertyModel { name: self.name@, schema: self.schema@ }
    }
}

impl View for FunctionDetails {
    type V = ToolModel;

    open spec fn view(&self) -> ToolModel {
        ToolModel {
            name: self.name@,
            description: self.description@,
            parameters: self.parameters@,
        }
    }
}

impl View for Function {
    type V = ToolModel;

    open spec fn view(&self) -> ToolModel {
        self.function@
    }
}

impl View for RawTool {
    type V = DescriptorModel;

    open spec fn view(&self) -> DescriptorModel {
        match self {
            RawTool::Function(function) => DescriptorModel::Function { tool: function@ },
            RawTool::Unknown(wire) => DescriptorModel::Unknown { wire: wire@ },
        }
    }
}

/// Says whether one of `properties` is called `name`.
pub fn has_property(properties: &Vec<Property>, name: &String) -> (r: bool)
    ensures
        r == exists|i: int|
            0 <= i < properties@.len() && (#[trigger] properties@[i]).name@ == name@,
{
    let mut i: usize = 0;
    while i < properties.len()
        invariant
            i <= properties.len(),
            forall|k: int| 0 <= k < i ==> (#[trigger] properties@[k]).name@ != name@,
        decreases properties.len() - i,
    {
        if properties[i].name == *name {
            return true;
        }
        i += 1;
    }
    false
}

impl ObjectParameter {
    /// Says whether the object's own property names are pairwise different.
    pub fn own_names_unique(&self) -> (r: bool)
        ensures
            r == property_names(FunctionParameter::Object(*self)@->properties).no_duplicates(),
    {
        let ghost names = property_names(FunctionParameter::Object(*self)@->properties);
        let mut i: usize = 0;
        while i < self.properties.len()
            invariant
                i <= self.properties.len(),
                names == property_names(FunctionParameter::Object(*self)@->properties),
                forall|a: int, b: int| 0 <= a < b < i ==> names[a] != names[b],
            decreases self.properties.len() - i,
        {
            let mut j: usize = 0;
            while j < i
                invariant
                    j <= i < self.properties.len(),
                    names == property_names(FunctionParameter::Object(*self)@->properties),
                    forall|a: int| 0 <= a < j ==> names[a] != names[i as int],
                decreases i - j,
            {
                if self.properties[j].name == self.properties[i].name {
                    assert(names[j as int] == names[i as int]);
                    return false;
                }
                j += 1;
            }
            i += 1;
        }
        true
    }

    /// Says whether every required name is one of the object's own properties.
    pub fn own_required_known(&self) -> (r: bool)
        ensures
            r == forall|j: int|
                0 <= j < FunctionParameter::Object(*self)@->required.len() ==> property_names(
                    FunctionParameter::Object(*self)@->properties,
                ).contains(#[trigger] FunctionParameter::Object(*self)@->required[j]),
    {
        let ghost names = property_names(FunctionParameter::Object(*self)@->properties);
        let ghost required = FunctionParameter::Object(*self)@->required;
        let mut j: usize = 0;
        while j < self.required.len()
            invariant
                j <= self.required.len(),
                names == property_names(FunctionParameter::Object(*self)@->properties),
                required == FunctionParameter::Object(*self)@->required,
                forall|k: int| 0 <= k < j ==> names.contains(#[trigger] required[k]),
            decreases self.required.len() - j,
        {
            let known = has_property(&self.properties, &self.required[j]);
            proof {
                assert(required[j as int] == self.required@[j as int]@);
                if known {
                    let i = choose|i: int|
                        0 <= i < self.properties@.len() && (#[trigger] self.properties@[i]).name@
                            == self.required@[j as int]@;
                    assert(names[i] == required[j as int]);
                } else {
                    assert forall|i: int| 0 <= i < names.len() implies names[i]
                        != required[j as int] by {
                        assert(self.properties@[i].name@ == names[i]);
                    }
                    assert(!names.contains(required[j as int]));
                }
            }
            if !known {
                return false;
            }
            j += 1;
        }
        true
    }
}

impl FunctionParameter {
    /// Says whether the parameter nests no deeper than `limit` levels.
    pub fn fits_within(&self, limit: usize) -> (r: bool)
        ensures
            r == self@.fits(limit as nat),
        decreases self,
    {
        if limit == 0 {
            return false;
        }
        match self {
            FunctionParameter::String(_) => true,
            FunctionParameter::Unknown(_) => true,
            FunctionParameter::Object(object) => {
                let ghost model = self@->properties;
                let mut i: usize = 0;
                while i < object.properties.len()
                    invariant
                        i <= object.properties.len(),
                        limit > 0,
                        *self == FunctionParameter::Object(*object),
                        model == self@->properties,
                        forall|k: int|
                            0 <= k < i ==> (#[trigger] model[k]).schema.fits((limit - 1) as nat),
                    decreases object.properties.len() - i,
                {
                    if !object.properties[i].schema.fits_within(limit - 1) {
                        assert(!model[i as int].schema.fits((limit - 1) as nat));
                        return false;
                    }
                    i += 1;
                }
                true
            },
        }
    }

    /// Says whether no object, at any level, names a property twice.
    pub fn names_unique(&self) -> (r: bool)
        ensures
            r == self@.names_unique(),
        decreases self,
    {
        match self {
            FunctionParameter::String(_) => true,
            FunctionParameter::Unknown(_) => true,
            FunctionParameter::Object(object) => {
                if !object.own_names_unique() {
                    return false;
                }
                let ghost model = self@->properties;
                let mut i: usize = 0;
                while i < object.properties.len()
                    invariant
                        i <= object.properties.len(),
                        *self == FunctionParameter::Object(*object),
                        model == self@->properties,
                        forall|k: int| 0 <= k < i ==> (#[trigger] model[k]).schema.names_unique(),
                    decreases object.properties.len() - i,
                {
                    if !object.properties[i].schema.names_unique() {
                        assert(!model[i as int].schema.names_unique());
                        return false;
                    }
                    i += 1;
                }
                true
            },
        }
    }

    /// Says whether every object, at any level, requires only properties
    /// that it has.
    pub fn required_known(&self) -> (r: bool)
        ensures
            r == self@.required_known(),
        decreases self,
    {
        match self {
            FunctionParameter::String(_) => true,
            FunctionParameter::Unknown(_) => true,
            FunctionParameter::Object(object) => {
                if !object.own_required_known() {
                    return false;
                }
                let ghost model = self@->properties;
                let mut i: usize = 0;
                while i < object.properties.len()
                    invariant
                        i <= object.properties.len(),
                        *self == FunctionParameter::Object(*object),
                        model == self@->properties,
                        forall|k: int| 0 <= k < i ==> (#[trigger] model[k]).schema.required_known(),
                    decreases object.properties.len() - i,
                {
                    if !object.properties[i].schema.required_known() {
                        assert(!model[i as int].schema.required_known());
                        return false;
                    }
                    i += 1;
                }
                true
            },
        }
    }

    /// Says whether every parameter kept as of unknown kind, at any level,
    /// names a kind that the library does not know.
    pub fn kinds_kept(&self) -> (r: bool)
        ensures
            r == self@.kinds_kept(),
        decreases self,
    {
        match self {
            FunctionParameter::String(_) => true,
            FunctionParameter::Unknown(wire) => match wire.kind() {
                Some(kind) => {
                    let object = String::from_str("object");
                    let string = String::from_str("string");
                    *kind != object && *kind != string
                },
                None => false,
            },
            FunctionParameter::Object(object) => {
                let ghost model = self@->properties;
                let mut i: usize = 0;
                while i < object.properties.len()
                    invariant
                        i <= object.properties.len(),
                        *self == FunctionParameter::Object(*object),
                        model == self@->properties,
                        forall|k: int| 0 <= k < i ==> (#[trigger] model[k]).schema.kinds_kept(),
                    decreases object.properties.len() - i,
                {
                    if !object.properties[i].schema.kinds_kept() {
                        assert(!model[i as int].schema.kinds_kept());
                        return false;
                    }
                    i += 1;
                }
                true
            },
        }
    }

    /// Checks that the parameter is a well-formed schema, and says why not
    /// where it is none.
    pub fn validate(&self) -> (r: Result<(), SchemaError>)
        ensures
            r == match self@.defect() {
                Some(e) => Err::<(), SchemaError>(e),
                None => Ok(()),
            },
    {
        if !self.fits_within(MAX_SCHEMA_DEPTH) {
            Err(SchemaError::TooDeep)
        } else if !self.names_unique() {
            Err(SchemaError::DuplicateProperty)
        } else if !self.required_known() {
            Err(SchemaError::UnknownRequired)
        } else if !self.kinds_kept() {
            Err(SchemaError::MisfiledKind)
        } else {
            Ok(())
        }
    }
}

impl RawTool {
    /// A function tool called `name`, which `description` explains and
    /// which takes `parameters`.
    pub fn function(name: String, description: String, parameters: FunctionParameter) -> (r:
        RawTool)
        ensures
            r@ == (DescriptorModel::Function {
                tool: ToolModel {
                    name: name@,
                    description: description@,
                    parameters: parameters@,
                },
            }),
    {
        RawTool::Function(Function { function: FunctionDetails { name, description, parameters } })
    }

    /// The tool's name, where its kind is known.
    pub fn name(&self) -> (r: Option<&String>)
        ensures
            match r {
                Some(name) => self@ is Function && name@ == self@->tool.name,
                None => self@ is Unknown,
            },
    {
        match self {
            RawTool::Function(function) => Some(&function.function.name),
            RawTool::Unknown(_) => None,
        }
    }

    /// What the tool is for, where its kind is known.
    pub fn description(&self) -> (r: Option<&String>)
        ensures
            match r {
                Some(description) => self@ is Function && description@ == self@->tool.description,
                None => self@ is Unknown,
            },
    {
        match self {
            RawTool::Function(function) => Some(&function.function.description),
            RawTool::Unknown(_) => None,
        }
    }

    /// The parameters that the tool takes, where its kind is known.
    pub fn parameters(&self) -> (r: Option<&FunctionParameter>)
        ensures
            match r {
                Some(parameters) => self@ is Function && parameters@ == self@->tool.parameters,
                None => self@ is Unknown,
            },
    {
        match self {
            RawTool::Function(function) => Some(&function.function.parameters),
            RawTool::Unknown(_) => None,
        }
    }

    /// Checks that the descriptor is well formed, and says why not where
    /// it is not.
    pub fn validate(&self) -> (r: Result<(), SchemaError>)
        ensures
            r == match self@.defect() {
                Some(e) => Err::<(), SchemaError>(e),
                None => Ok(()),
            },
    {
        match self {
            RawTool::Function(function) => function.function.parameters.validate(),
            RawTool::Unknown(wire) => match wire.kind() {
                Some(kind) => {
                    let function = String::from_str("function");
                    if *kind != function {
                        Ok(())
                    } else {
                        Err(SchemaError::MisfiledKind)
                    }
                },
                None => Err(SchemaError::MisfiledKind),
            },
        }
    }
}

} // verus!
