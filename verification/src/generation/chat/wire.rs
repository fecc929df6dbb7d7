//! The wire format of tool descriptors: how a tool and its parameters are
//! written as a wire value, and how they are read back.

use crate::generation::chat::tools::{
    property_views, text_views, DescriptorModel, Function, FunctionDetails, FunctionParameter,
    ObjectParameter, ParameterModel, Property, PropertyModel, RawTool, StringParameter,
    ToolModel, MAX_SCHEMA_DEPTH,
};
use crate::generation::chat::value::{
    entry, field_views, find_field, item_views, lookup, lookup_upto, FieldModel, WireField,
    WireModel, WireValue,
};
use vstd::prelude::*;

verus! {

/// Why a wire value is no tool descriptor.
#[derive(Clone, Copy, Debug, PartialEq, Eq, Structural)]
pub enum DecodeError {
    /// A record was expected.
    NotARecord,
    /// A record lacks an entry that the format asks for.
    MissingField,
    /// An entry holds a value of another type than the format asks for.
    WrongType,
    /// Parameters nest deeper than `MAX_SCHEMA_DEPTH`.
    TooDeep,
}

/// The wire form of an optional text: the text, or null.
pub open spec fn optional_text_wire(text: Option<Seq<char>>) -> WireModel {
    match text {
        Some(t) => WireModel::Text(t),
        None => WireModel::Null,
    }
}

/// The wire form of a parameter: a record that starts with its kind under
/// `type`. An object carries `properties`, a record keyed by property name,
/// and `required`, a list of names; a string carries `description`. A
/// parameter of unknown kind goes out as it came in.
pub open spec fn parameter_wire(parameter: ParameterModel) -> WireModel
    decreases parameter,
{
    match parameter {
        ParameterModel::Unknown { wire } => wire,
        ParameterModel::String { description } => WireModel::Record(
            seq![
                entry("type"@, WireModel::Text("string"@)),
                entry("description"@, optional_text_wire(description)),
            ],
        ),
        ParameterModel::Object { properties, required } => WireModel::Record(
            seq![
                entry("type"@, WireModel::Text("object"@)),
                entry(
                    "properties"@,
                    WireModel::Record(
                        Seq::new(
                            properties.len(),
                            |i: int|
                                if 0 <= i < properties.len() {
                                    entry(properties[i].name, parameter_wire(properties[i].schema))
                                } else {
                                    arbitrary()
                                },
                        ),
                    ),
                ),
                entry(
                    "required"@,
                    WireModel::List(
                        Seq::new(required.len(), |j: int| WireModel::Text(required[j])),
                    ),
                ),
            ],
        ),
    }
}

/// The wire form of a function tool: a record of kind `function` whose
/// entry `function` holds name, description and parameters.
pub open spec fn function_wire(tool: ToolModel) -> WireModel {
    WireModel::Record(
        seq![
            entry("type"@, WireModel::Text("function"@)),
            entry(
                "function"@,
                WireModel::Record(
                    seq![
                        entry("name"@, WireModel::Text(tool.name)),
                        entry("description"@, WireModel::Text(tool.description)),
                        entry("parameters"@, parameter_wire(tool.parameters)),
                    ],
                ),
            ),
        ],
    )
}

/// The wire form of a tool. A tool of unknown kind goes out as it came in.
pub open spec fn tool_wire(tool: DescriptorModel) -> WireModel {
    match tool {
        DescriptorModel::Function { tool } => function_wire(tool),
        DescriptorModel::Unknown { wire } => wire,
    }
}

/// The texts that the leading `count` values of `items` hold, where each is
/// a text.
pub open spec fn wire_texts_upto(items: Seq<WireModel>, count: nat) -> Result<
    Seq<Seq<char>>,
    DecodeError,
>
    decreases count,
{
    if count == 0 {
        Ok(Seq::empty())
    } else {
        match wire_texts_upto(items, (count - 1) as nat) {
            Err(e) => Err(e),
            Ok(texts) => match items[count - 1] {
                WireModel::Text(t) => Ok(texts.push(t)),
                _ => Err(DecodeError::WrongType),
            },
        }
    }
}

/// The description that a string parameter's record gives: none where the
/// entry is absent or null.
pub open spec fn wire_description(found: Option<WireModel>) -> Result<
    Option<Seq<char>>,
    DecodeError,
> {
    match found {
        None => Ok(None),
        Some(WireModel::Null) => Ok(None),
        Some(WireModel::Text(t)) => Ok(Some(t)),
        Some(_) => Err(DecodeError::WrongType),
    }
}

/// The text under `key` in `fields`.
pub open spec fn wire_text_field(fields: Seq<FieldModel>, key: Seq<char>) -> Result<
    Seq<char>,
    DecodeError,
> {
    match lookup(fields, key) {
        None => Err(DecodeError::MissingField),
        Some(WireModel::Text(t)) => Ok(t),
        Some(_) => Err(DecodeError::WrongType),
    }
}

/// The record under `key` in `fields`.
pub open spec fn wire_record_field(fields: Seq<FieldModel>, key: Seq<char>) -> Result<
    Seq<FieldModel>,
    DecodeError,
> {
    match lookup(fields, key) {
        None => Err(DecodeError::MissingField),
        Some(WireModel::Record(inner)) => Ok(inner),
        Some(_) => Err(DecodeError::WrongType),
    }
}

/// The list under `key` in `fields`.
pub open spec fn wire_list_field(fields: Seq<FieldModel>, key: Seq<char>) -> Result<
    Seq<WireModel>,
    DecodeError,
> {
    match lookup(fields, key) {
        None => Err(DecodeError::MissingField),
        Some(WireModel::List(items)) => Ok(items),
        Some(_) => Err(DecodeError::WrongType),
    }
}

/// The parameter that `wire` stands for, read no deeper than `limit`
/// levels. Entries are found by key, whatever their order, and entries that
/// the format does not name are passed over. A record that names a kind
/// which the library does not know is kept whole. Of several faults the
/// one met first is reported: the kind, then the properties in order, then
/// the required names.
pub open spec fn wire_parameter(wire: WireModel, limit: nat) -> Result<ParameterModel, DecodeError>
    decreases limit, 0nat,
{
    if limit == 0 {
        Err(DecodeError::TooDeep)
    } else {
        match wire {
            WireModel::Record(fields) => match wire_text_field(fields, "type"@) {
                Err(e) => Err(e),
                Ok(kind) => if kind == "string"@ {
                    match wire_description(lookup(fields, "description"@)) {
                        Err(e) => Err(e),
                        Ok(description) => Ok(ParameterModel::String { description }),
                    }
                } else if kind == "object"@ {
                    match wire_record_field(fields, "properties"@) {
                        Err(e) => Err(e),
                        Ok(inner) => match wire_properties_upto(
                            inner,
                            (limit - 1) as nat,
                            inner.len(),
                        ) {
                            Err(e) => Err(e),
                            Ok(properties) => match wire_list_field(fields, "required"@) {
                                Err(e) => Err(e),
                                Ok(items) => match wire_texts_upto(items, items.len()) {
                                    Err(e) => Err(e),
                                    Ok(required) => Ok(
                                        ParameterModel::Object { properties, required },
                                    ),
                                },
                            },
                        },
                    }
                } else {
                    Ok(ParameterModel::Unknown { wire })
                },
            },
            _ => Err(DecodeError::NotARecord),
        }
    }
}

/// The properties that the leading `count` entries of `fields` stand for,
/// each read no deeper than `limit` levels.
pub open spec fn wire_properties_upto(fields: Seq<FieldModel>, limit: nat, count: nat) -> Result<
    Seq<PropertyModel>,
    DecodeError,
>
    decreases limit, count + 1,
{
    if count == 0 {
        Ok(Seq::empty())
    } else {
        match wire_properties_upto(fields, limit, (count - 1) as nat) {
            Err(e) => Err(e),
            Ok(properties) => match wire_parameter(fields[count - 1].value, limit) {
                Err(e) => Err(e),
                Ok(schema) => Ok(
                    properties.push(PropertyModel { name: fields[count - 1].key, schema }),
                ),
            },
        }
    }
}

/// The tool that `wire` stands for. A record that names a kind of tool
/// which the library does not know is kept whole.
pub open spec fn wire_tool(wire: WireModel) -> Result<DescriptorModel, DecodeError> {
    match wire {
        WireModel::Record(fields) => match wire_text_field(fields, "type"@) {
            Err(e) => Err(e),
            Ok(kind) => if kind == "function"@ {
                match wire_record_field(fields, "function"@) {
                    Err(e) => Err(e),
                    Ok(inner) => match wire_text_field(inner, "name"@) {
                        Err(e) => Err(e),
                        Ok(name) => match wire_text_field(inner, "description"@) {
                            Err(e) => Err(e),
                            Ok(description) => match lookup(inner, "parameters"@) {
                                None => Err(DecodeError::MissingField),
                                Some(parameters) => match wire_parameter(
                                    parameters,
                                    MAX_SCHEMA_DEPTH as nat,
                                ) {
                                    Err(e) => Err(e),
                                    Ok(parameters) => Ok(
                                        DescriptorModel::Function {
                                            tool: ToolModel { name, description, parameters },
                                        },
                                    ),
                                },
                            },
                        },
                    },
                }
            } else {
                Ok(DescriptorModel::Unknown { wire })
            },
        },
        _ => Err(DecodeError::NotARecord),
    }
}

/// The entries under which `properties` go over the wire.
pub open spec fn properties_wire(properties: Seq<PropertyModel>) -> Seq<FieldModel> {
    Seq::new(
        properties.len(),
        |i: int|
            if 0 <= i < properties.len() {
                entry(properties[i].name, parameter_wire(properties[i].schema))
            } else {
                arbitrary()
            },
    )
}

/// The values under which `texts` go over the wire.
pub open spec fn texts_wire(texts: Seq<Seq<char>>) -> Seq<WireModel> {
    Seq::new(texts.len(), |j: int| WireModel::Text(texts[j]))
}

/// Reading back the leading `count` of the texts written gives those texts.
proof fn lemma_texts_round_trip(texts: Seq<Seq<char>>, count: nat)
    requires
        count <= texts.len(),
    ensures
        wire_texts_upto(texts_wire(texts), count) == Ok::<Seq<Seq<char>>, DecodeError>(
            texts.take(count as int),
        ),
    decreases count,
{
    if count > 0 {
        lemma_texts_round_trip(texts, (count - 1) as nat);
        assert(texts.take(count - 1).push(texts[count - 1]) =~= texts.take(count as int));
    } else {
        assert(texts.take(0) =~= Seq::<Seq<char>>::empty());
    }
}

/// Reading back the leading `count` of the properties written gives those
/// properties, where each of their schemas reads back as itself.
proof fn lemma_properties_round_trip(properties: Seq<PropertyModel>, limit: nat, count: nat)
    requires
        count <= properties.len(),
        forall|i: int|
            0 <= i < count ==> wire_parameter(
                parameter_wire((#[trigger] properties[i]).schema),
                limit,
            ) == Ok::<ParameterModel, DecodeError>(properties[i].schema),
    ensures
        wire_properties_upto(properties_wire(properties), limit, count) == Ok::<
            Seq<PropertyModel>,
            DecodeError,
        >(properties.take(count as int)),
    decreases count,
{
    if count > 0 {
        lemma_properties_round_trip(properties, limit, (count - 1) as nat);
        let last = properties[count - 1];
        assert(properties_wire(properties)[count - 1] == entry(
            last.name,
            parameter_wire(last.schema),
        ));
        assert(properties.take(count - 1).push(last) =~= properties.take(count as int));
    } else {
        assert(properties.take(0) =~= Seq::<PropertyModel>::empty());
    }
}

/// A parameter that nests no deeper than `limit` levels, and in which
/// what is kept as of unknown kind is of unknown kind, reads back from its
/// wire form as itself.
pub proof fn lemma_parameter_round_trip(parameter: ParameterModel, limit: nat)
    requires
        parameter.fits(limit),
        parameter.kinds_kept(),
    ensures
        wire_parameter(parameter_wire(parameter), limit) == Ok::<ParameterModel, DecodeError>(
            parameter,
        ),
    decreases parameter,
{
    reveal_strlit("type");
    reveal_strlit("string");
    reveal_strlit("object");
    reveal_strlit("description");
    reveal_strlit("properties");
    reveal_strlit("required");
    reveal_with_fuel(lookup_upto, 4);
    match parameter {
        ParameterModel::Unknown { wire } => {},
        ParameterModel::String { description } => {
            let fields = parameter_wire(parameter)->Record_0;
            assert(fields.len() == 2);
            assert(lookup(fields, "type"@) == Some(WireModel::Text("string"@)));
            assert("description"@ != "type"@) by {
                assert("description"@.len() != "type"@.len());
            }
            assert(lookup(fields, "description"@) == Some(optional_text_wire(description)));
        },
        ParameterModel::Object { properties, required } => {
            let fields = parameter_wire(parameter)->Record_0;
            assert(fields.len() == 3);
            assert("object"@ != "string"@) by {
                assert("object"@[0] != "string"@[0]);
            }
            assert("properties"@ != "type"@) by {
                assert("properties"@.len() != "type"@.len());
            }
            assert("required"@ != "type"@) by {
                assert("required"@.len() != "type"@.len());
            }
            assert("required"@ != "properties"@) by {
                assert("required"@.len() != "properties"@.len());
            }
            assert(lookup(fields, "type"@) == Some(WireModel::Text("object"@)));
            assert(fields[1].value->Record_0 =~= properties_wire(properties));
            assert(lookup(fields, "properties"@) == Some(fields[1].value));
            assert(fields[2].value->List_0 =~= texts_wire(required));
            assert(lookup(fields, "required"@) == Some(fields[2].value));
            assert forall|i: int| 0 <= i < properties.len() implies wire_parameter(
                parameter_wire((#[trigger] properties[i]).schema),
                (limit - 1) as nat,
            ) == Ok::<ParameterModel, DecodeError>(properties[i].schema) by {
                lemma_parameter_round_trip(properties[i].schema, (limit - 1) as nat);
            }
            lemma_properties_round_trip(properties, (limit - 1) as nat, properties.len());
            lemma_texts_round_trip(required, required.len());
            assert(properties.take(properties.len() as int) =~= properties);
            assert(required.take(required.len() as int) =~= required);
        },
    }
}

/// Decoding what was encoded gives the tool back: every valid tool reads
/// back from its wire form as itself.
pub proof fn lemma_tool_round_trip(tool: DescriptorModel)
    requires
        tool.valid(),
    ensures
        wire_tool(tool_wire(tool)) == Ok::<DescriptorModel, DecodeError>(tool),
{
    match tool {
        DescriptorModel::Unknown { wire } => {},
        DescriptorModel::Function { tool } => {
            lemma_function_round_trip(tool);
        },
    }
}

/// A function tool whose parameters are a well-formed schema reads back
/// from its wire form as itself.
proof fn lemma_function_round_trip(tool: ToolModel)
    requires
        tool.valid(),
    ensures
        wire_tool(function_wire(tool)) == Ok::<DescriptorModel, DecodeError>(
            DescriptorModel::Function { tool },
        ),
{
    reveal_strlit("type");
    reveal_strlit("function");
    reveal_strlit("name");
    reveal_strlit("description");
    reveal_strlit("parameters");
    reveal_with_fuel(lookup_upto, 4);
    let fields = function_wire(tool)->Record_0;
    let inner = fields[1].value->Record_0;
    assert(fields.len() == 2);
    assert(inner.len() == 3);
    assert("function"@ != "type"@) by {
        assert("function"@.len() != "type"@.len());
    }
    assert("description"@ != "name"@) by {
        assert("description"@.len() != "name"@.len());
    }
    assert("parameters"@ != "name"@) by {
        assert("parameters"@.len() != "name"@.len());
    }
    assert("parameters"@ != "description"@) by {
        assert("parameters"@.len() != "description"@.len());
    }
    assert(lookup(fields, "type"@) == Some(WireModel::Text("function"@)));
    assert(lookup(fields, "function"@) == Some(fields[1].value));
    assert(lookup(inner, "name"@) == Some(WireModel::Text(tool.name)));
    assert(lookup(inner, "description"@) == Some(WireModel::Text(tool.description)));
    assert(lookup(inner, "parameters"@) == Some(parameter_wire(tool.parameters)));
    lemma_parameter_round_trip(tool.parameters, MAX_SCHEMA_DEPTH as nat);
}

/// Writes a list of texts as a wire value.
fn encode_texts(texts: &Vec<String>) -> (r: WireValue)
    ensures
        r@ == WireModel::List(texts_wire(text_views(texts@))),
{
    let mut items: Vec<WireValue> = Vec::new();
    let mut j: usize = 0;
    while j < texts.len()
        invariant
            j <= texts.len(),
            items@.len() == j,
            forall|k: int| 0 <= k < j ==> (#[trigger] items@[k])@ == WireModel::Text(texts@[k]@),
        decreases texts.len() - j,
    {
        items.push(WireValue::text(texts[j].as_str()));
        j += 1;
    }
    let r = WireValue::list(items);
    assert(r@->List_0 =~= texts_wire(text_views(texts@)));
    r
}

/// Writes a parameter in its wire form.
pub fn encode_parameter(parameter: &FunctionParameter) -> (wire: WireValue)
    ensures
        wire@ == parameter_wire(parameter@),
    decreases parameter,
{
    match parameter {
        FunctionParameter::Unknown(wire) => wire.duplicate(),
        FunctionParameter::String(string) => {
            let description = match &string.description {
                Some(d) => WireValue::text(d.as_str()),
                None => WireValue::Null,
            };
            let mut fields: Vec<WireField> = Vec::new();
            fields.push(WireField::new("type", WireValue::text("string")));
            fields.push(WireField::new("description", description));
            let wire = WireValue::record(fields);
            assert(wire@->Record_0 =~= parameter_wire(parameter@)->Record_0);
            wire
        },
        FunctionParameter::Object(object) => {
            let ghost model = parameter@->properties;
            let mut inner: Vec<WireField> = Vec::new();
            let mut i: usize = 0;
            while i < object.properties.len()
                invariant
                    i <= object.properties.len(),
                    inner@.len() == i,
                    *parameter == FunctionParameter::Object(*object),
                    model == parameter@->properties,
                    forall|k: int|
                        0 <= k < i ==> (#[trigger] inner@[k])@ == entry(
                            model[k].name,
                            parameter_wire(model[k].schema),
                        ),
                decreases object.properties.len() - i,
            {
                let property = &object.properties[i];
                let value = encode_parameter(&property.schema);
                inner.push(WireField::new(property.name.as_str(), value));
                i += 1;
            }
            let properties = WireValue::record(inner);
            assert(properties@->Record_0 =~= properties_wire(model));
            let required = encode_texts(&object.required);
            let mut fields: Vec<WireField> = Vec::new();
            fields.push(WireField::new("type", WireValue::text("object")));
            fields.push(WireField::new("properties", properties));
            fields.push(WireField::new("required", required));
            let wire = WireValue::record(fields);
            proof {
                let expected = parameter_wire(parameter@)->Record_0;
                assert(expected[1].value->Record_0 =~= properties_wire(model));
                assert(expected[2].value->List_0 =~= texts_wire(parameter@->required));
                assert(wire@->Record_0 =~= expected);
            }
            wire
        },
    }
}

/// Writes a function tool in its wire form.
pub fn encode_function(function: &Function) -> (wire: WireValue)
    ensures
        wire@ == function_wire(function@),
{
    let details = &function.function;
    let mut inner: Vec<WireField> = Vec::new();
    inner.push(WireField::new("name", WireValue::text(details.name.as_str())));
    inner.push(WireField::new("description", WireValue::text(details.description.as_str())));
    inner.push(WireField::new("parameters", encode_parameter(&details.parameters)));
    let body = WireValue::record(inner);
    let mut fields: Vec<WireField> = Vec::new();
    fields.push(WireField::new("type", WireValue::text("function")));
    fields.push(WireField::new("function", body));
    let wire = WireValue::record(fields);
    proof {
        let expected = function_wire(function@)->Record_0;
        assert(body@->Record_0 =~= expected[1].value->Record_0);
        assert(wire@->Record_0 =~= expected);
    }
    wire
}

/// Writes a tool in its wire form. What is written of a well-formed tool
/// reads back as that tool.
pub fn encode_tool(tool: &RawTool) -> (wire: WireValue)
    ensures
        wire@ == tool_wire(tool@),
        tool@.valid() ==> wire_tool(wire@) == Ok::<DescriptorModel, DecodeError>(tool@),
{
    proof {
        if tool@.valid() {
            lemma_tool_round_trip(tool@);
        }
    }
    match tool {
        RawTool::Function(function) => encode_function(function),
        RawTool::Unknown(wire) => wire.duplicate(),
    }
}

/// Once a leading value is no text, reading further reports the same fault.
proof fn lemma_texts_error_stable(items: Seq<WireModel>, count: nat, more: nat)
    requires
        count <= more,
        wire_texts_upto(items, count) is Err,
    ensures
        wire_texts_upto(items, more) == wire_texts_upto(items, count),
    decreases more,
{
    if more > count {
        lemma_texts_error_stable(items, count, (more - 1) as nat);
    }
}

/// Once a leading property is refused, reading further reports the same
/// fault.
proof fn lemma_properties_error_stable(
    fields: Seq<FieldModel>,
    limit: nat,
    count: nat,
    more: nat,
)
    requires
        count <= more,
        wire_properties_upto(fields, limit, count) is Err,
    ensures
        wire_properties_upto(fields, limit, more) == wire_properties_upto(fields, limit, count),
    decreases more,
{
    if more > count {
        lemma_properties_error_stable(fields, limit, count, (more - 1) as nat);
    }
}

/// Reads the text under `key`.
fn text_field<'a>(fields: &'a Vec<WireField>, key: &str) -> (r: Result<&'a String, DecodeError>)
    ensures
        match r {
            Ok(t) => wire_text_field(field_views(fields@), key@) == Ok::<Seq<char>, DecodeError>(
                t@,
            ),
            Err(e) => wire_text_field(field_views(fields@), key@) == Err::<
                Seq<char>,
                DecodeError,
            >(e),
        },
{
    match find_field(fields, key) {
        None => Err(DecodeError::MissingField),
        Some(WireValue::Text(t)) => Ok(t),
        Some(_) => Err(DecodeError::WrongType),
    }
}

/// Reads the record under `key`.
fn record_field<'a>(fields: &'a Vec<WireField>, key: &str) -> (r: Result<
    &'a Vec<WireField>,
    DecodeError,
>)
    ensures
        match r {
            Ok(inner) => wire_record_field(field_views(fields@), key@) == Ok::<
                Seq<FieldModel>,
                DecodeError,
            >(field_views(inner@)),
            Err(e) => wire_record_field(field_views(fields@), key@) == Err::<
                Seq<FieldModel>,
                DecodeError,
            >(e),
        },
{
    match find_field(fields, key) {
        None => Err(DecodeError::MissingField),
        Some(value) => match value {
            WireValue::Record(inner) => {
                assert(value@->Record_0 =~= field_views(inner@));
                Ok(inner)
            },
            _ => Err(DecodeError::WrongType),
        },
    }
}

/// Reads the list under `key`.
fn list_field<'a>(fields: &'a Vec<WireField>, key: &str) -> (r: Result<
    &'a Vec<WireValue>,
    DecodeError,
>)
    ensures
        match r {
            Ok(items) => wire_list_field(field_views(fields@), key@) == Ok::<
                Seq<WireModel>,
                DecodeError,
            >(item_views(items@)),
            Err(e) => wire_list_field(field_views(fields@), key@) == Err::<
                Seq<WireModel>,
                DecodeError,
            >(e),
        },
{
    match find_field(fields, key) {
        None => Err(DecodeError::MissingField),
        Some(value) => match value {
            WireValue::List(items) => {
                assert(value@->List_0 =~= item_views(items@));
                Ok(items)
            },
            _ => Err(DecodeError::WrongType),
        },
    }
}

/// Reads a list of texts.
fn decode_texts(items: &Vec<WireValue>) -> (r: Result<Vec<String>, DecodeError>)
    ensures
        match r {
            Ok(texts) => wire_texts_upto(item_views(items@), items@.len()) == Ok::<
                Seq<Seq<char>>,
                DecodeError,
            >(text_views(texts@)),
            Err(e) => wire_texts_upto(item_views(items@), items@.len()) == Err::<
                Seq<Seq<char>>,
                DecodeError,
            >(e),
        },
{
    let ghost views = item_views(items@);
    let mut texts: Vec<String> = Vec::new();
    let mut j: usize = 0;
    proof {
        assert(text_views(texts@) =~= Seq::<Seq<char>>::empty());
    }
    while j < items.len()
        invariant
            j <= items.len(),
            views == item_views(items@),
            wire_texts_upto(views, j as nat) == Ok::<Seq<Seq<char>>, DecodeError>(
                text_views(texts@),
            ),
        decreases items.len() - j,
    {
        let ghost before = text_views(texts@);
        assert(views[j as int] == items@[j as int]@);
        match &items[j] {
            WireValue::Text(t) => {
                texts.push(t.clone());
                assert(text_views(texts@) =~= before.push(t@));
            },
            _ => {
                proof {
                    assert(wire_texts_upto(views, (j + 1) as nat) == Err::<
                        Seq<Seq<char>>,
                        DecodeError,
                    >(DecodeError::WrongType));
                    lemma_texts_error_stable(views, (j + 1) as nat, views.len());
                }
                return Err(DecodeError::WrongType);
            },
        }
        j += 1;
    }
    Ok(texts)
}

/// Reads the properties of an object parameter from the entries of its
/// record, each no deeper than `limit` levels.
pub fn decode_properties(inner: &Vec<WireField>, limit: usize) -> (r: Result<
    Vec<Property>,
    DecodeError,
>)
    ensures
        match r {
            Ok(properties) => wire_properties_upto(
                field_views(inner@),
                limit as nat,
                inner@.len(),
            ) == Ok::<Seq<PropertyModel>, DecodeError>(property_views(properties@)),
            Err(e) => wire_properties_upto(field_views(inner@), limit as nat, inner@.len())
                == Err::<Seq<PropertyModel>, DecodeError>(e),
        },
    decreases limit, 1nat,
{
    let ghost views = field_views(inner@);
    let mut properties: Vec<Property> = Vec::new();
    let mut i: usize = 0;
    proof {
        assert(property_views(properties@) =~= Seq::<PropertyModel>::empty());
    }
    while i < inner.len()
        invariant
            i <= inner.len(),
            views == field_views(inner@),
            wire_properties_upto(views, limit as nat, i as nat) == Ok::<
                Seq<PropertyModel>,
                DecodeError,
            >(property_views(properties@)),
        decreases inner.len() - i,
    {
        let ghost before = property_views(properties@);
        assert(views[i as int] == inner@[i as int]@);
        match decode_parameter_within(&inner[i].value, limit) {
            Err(e) => {
                proof {
                    assert(wire_properties_upto(views, limit as nat, (i + 1) as nat) == Err::<
                        Seq<PropertyModel>,
                        DecodeError,
                    >(e));
                    lemma_properties_error_stable(
                        views,
                        limit as nat,
                        (i + 1) as nat,
                        views.len(),
                    );
                }
                return Err(e);
            },
            Ok(schema) => {
                let property = Property { name: inner[i].key.clone(), schema };
                let ghost model = property@;
                properties.push(property);
                assert(property_views(properties@) =~= before.push(model));
            },
        }
        i += 1;
    }
    Ok(properties)
}

/// Reads a parameter from its wire form, no deeper than `limit` levels.
pub fn decode_parameter_within(wire: &WireValue, limit: usize) -> (r: Result<
    FunctionParameter,
    DecodeError,
>)
    ensures
        match r {
            Ok(p) => wire_parameter(wire@, limit as nat) == Ok::<ParameterModel, DecodeError>(p@),
            Err(e) => wire_parameter(wire@, limit as nat) == Err::<ParameterModel, DecodeError>(
                e,
            ),
        },
    decreases limit, 0nat,
{
    if limit == 0 {
        return Err(DecodeError::TooDeep);
    }
    match wire {
        WireValue::Record(fields) => {
            assert(wire@->Record_0 =~= field_views(fields@));
            let kind = match text_field(fields, "type") {
                Ok(kind) => kind,
                Err(e) => {
                    return Err(e);
                },
            };
            let string_kind = String::from_str("string");
            let object_kind = String::from_str("object");
            if *kind == string_kind {
                let description = match find_field(fields, "description") {
                    None => None,
                    Some(WireValue::Null) => None,
                    Some(WireValue::Text(t)) => Some(t.clone()),
                    Some(_) => {
                        return Err(DecodeError::WrongType);
                    },
                };
                Ok(FunctionParameter::String(StringParameter { description }))
            } else if *kind == object_kind {
                let inner = match record_field(fields, "properties") {
                    Ok(inner) => inner,
                    Err(e) => {
                        return Err(e);
                    },
                };
                let properties = match decode_properties(inner, limit - 1) {
                    Ok(properties) => properties,
                    Err(e) => {
                        return Err(e);
                    },
                };
                let items = match list_field(fields, "required") {
                    Ok(items) => items,
                    Err(e) => {
                        return Err(e);
                    },
                };
                let required = match decode_texts(items) {
                    Ok(required) => required,
                    Err(e) => {
                        return Err(e);
                    },
                };
                let parameter = FunctionParameter::Object(
                    ObjectParameter { properties, required },
                );
                assert(parameter@->properties =~= property_views(properties@));
                Ok(parameter)
            } else {
                Ok(FunctionParameter::Unknown(wire.duplicate()))
            }
        },
        _ => Err(DecodeError::NotARecord),
    }
}

/// Reads a parameter from its wire form.
pub fn decode_parameter(wire: &WireValue) -> (r: Result<FunctionParameter, DecodeError>)
    ensures
        match r {
            Ok(p) => wire_parameter(wire@, MAX_SCHEMA_DEPTH as nat) == Ok::<
                ParameterModel,
                DecodeError,
            >(p@),
            Err(e) => wire_parameter(wire@, MAX_SCHEMA_DEPTH as nat) == Err::<
                ParameterModel,
                DecodeError,
            >(e),
        },
{
    decode_parameter_within(wire, MAX_SCHEMA_DEPTH)
}

/// Reads a tool from its wire form.
pub fn decode_tool(wire: &WireValue) -> (r: Result<RawTool, DecodeError>)
    ensures
        match r {
            Ok(tool) => wire_tool(wire@) == Ok::<DescriptorModel, DecodeError>(tool@),
            Err(e) => wire_tool(wire@) == Err::<DescriptorModel, DecodeError>(e),
        },
{
    match wire {
        WireValue::Record(fields) => {
            assert(wire@->Record_0 =~= field_views(fields@));
            let kind = match text_field(fields, "type") {
                Ok(kind) => kind,
                Err(e) => {
                    return Err(e);
                },
            };
            let function_kind = String::from_str("function");
            if *kind != function_kind {
                return Ok(RawTool::Unknown(wire.duplicate()));
            }
            let inner = match record_field(fields, "function") {
                Ok(inner) => inner,
                Err(e) => {
                    return Err(e);
                },
            };
            let name = match text_field(inner, "name") {
                Ok(name) => name.clone(),
                Err(e) => {
                    return Err(e);
                },
            };
            let description = match text_field(inner, "description") {
                Ok(description) => description.clone(),
                Err(e) => {
                    return Err(e);
                },
            };
            let parameters = match find_field(inner, "parameters") {
                None => {
                    return Err(DecodeError::MissingField);
                },
                Some(value) => match decode_parameter(value) {
                    Ok(parameters) => parameters,
                    Err(e) => {
                        return Err(e);
                    },
                },
            };
            let function = FunctionDetails { name, description, parameters };
            Ok(RawTool::Function(Function { function }))
        },
        _ => Err(DecodeError::NotARecord),
    }
}

} // verus!
