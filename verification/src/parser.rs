//! The AST builder: from a labeled parse tree to typed citizen records.
//!
//! The grammar engine itself is an external collaborator. This library
//! consumes its output through a narrow interface, [`ParseNode`]: a node
//! carries the tag of the grammar rule that matched, the exact matched
//! source text, and its ordered children. Hand-built trees work just as
//! well as trees converted from a real grammar engine, so everything from
//! here on is ordinary, fully checked logic.

use crate::citizens::{
    CoreEvent, Era, Event, Generator, Immune, Memory, Niche, Origin, RecordModel, Timeline, Value,
    ValueModel, value_models,
};
use crate::name_map::NameMap;
use vstd::prelude::*;

verus! {

broadcast use vstd::std_specs::vec::group_vec_axioms;

/// The grammar rule that a parse-tree node matched.
///
/// The nine citizen tags and `Document` label declaration shapes, `Field`
/// labels one (key, value) field pair, the five `*Lit` tags label the value
/// grammar, and `Other` stands for any auxiliary production (whitespace,
/// comments, end-of-input) that the builder tolerates and ignores.
#[derive(Debug, Clone, Copy, PartialEq, Eq, Structural)]
pub enum NodeTag {
    Document,
    Origin,
    Timeline,
    Event,
    CoreEvent,
    Niche,
    Era,
    Generator,
    Memory,
    Immune,
    Field,
    StringLit,
    NumberLit,
    BooleanLit,
    ListLit,
    IdentifierLit,
    Other,
}

/// One node of the parse tree handed over by the grammar engine.
#[derive(Debug)]
pub struct ParseNode {
    pub tag: NodeTag,
    pub text: String,
    pub children: Vec<ParseNode>,
}

/// A parse-tree node lacks a child that the grammar contract guarantees;
/// an adapter-contract violation rather than a user input error.
#[derive(Debug, Clone, Copy, PartialEq, Eq, Structural)]
pub enum StructureError {
    MissingName,
    MissingFieldKey,
    MissingFieldValue,
}

/// A value node's matched text does not conform to its declared literal
/// type, or a node that should be a value carries an unexpected rule tag.
/// Carries the offending tag and the raw matched text.
#[derive(Debug, PartialEq)]
pub struct ValueTypeError {
    pub tag: NodeTag,
    pub text: String,
}

/// Everything the AST builder can fail with.
#[derive(Debug, PartialEq)]
pub enum AstError {
    Structure(StructureError),
    ValueType(ValueTypeError),
}

/// Mathematical model of [`AstError`], with text abstracted to a sequence
/// of characters.
pub enum AstErrorModel {
    Structure(StructureError),
    ValueType(NodeTag, Seq<char>),
}

impl DeepView for AstError {
    type V = AstErrorModel;

    open spec fn deep_view(&self) -> AstErrorModel {
        match self {
            AstError::Structure(e) => AstErrorModel::Structure(*e),
            AstError::ValueType(e) => AstErrorModel::ValueType(e.tag, e.text@),
        }
    }
}

/// The name of each grammar rule tag, as messages cite it.
pub open spec fn tag_name(t: NodeTag) -> Seq<char> {
    match t {
        NodeTag::Document => "document"@,
        NodeTag::Origin => "origin"@,
        NodeTag::Timeline => "timeline"@,
        NodeTag::Event => "event"@,
        NodeTag::CoreEvent => "core_event"@,
        NodeTag::Niche => "niche"@,
        NodeTag::Era => "era"@,
        NodeTag::Generator => "generator"@,
        NodeTag::Memory => "memory"@,
        NodeTag::Immune => "immune"@,
        NodeTag::Field => "field"@,
        NodeTag::StringLit => "string"@,
        NodeTag::NumberLit => "number"@,
        NodeTag::BooleanLit => "boolean"@,
        NodeTag::ListLit => "list"@,
        NodeTag::IdentifierLit => "identifier"@,
        NodeTag::Other => "other"@,
    }
}

impl NodeTag {
    /// The tag's name, as messages cite it.
    pub fn name(&self) -> (s: String)
        ensures
            s@ == tag_name(*self),
    {
        match self {
            NodeTag::Document => "document".to_owned(),
            NodeTag::Origin => "origin".to_owned(),
            NodeTag::Timeline => "timeline".to_owned(),
            NodeTag::Event => "event".to_owned(),
            NodeTag::CoreEvent => "core_event".to_owned(),
            NodeTag::Niche => "niche".to_owned(),
            NodeTag::Era => "era".to_owned(),
            NodeTag::Generator => "generator".to_owned(),
            NodeTag::Memory => "memory".to_owned(),
            NodeTag::Immune => "immune".to_owned(),
            NodeTag::Field => "field".to_owned(),
            NodeTag::StringLit => "string".to_owned(),
            NodeTag::NumberLit => "number".to_owned(),
            NodeTag::BooleanLit => "boolean".to_owned(),
            NodeTag::ListLit => "list".to_owned(),
            NodeTag::IdentifierLit => "identifier".to_owned(),
            NodeTag::Other => "other".to_owned(),
        }
    }
}

/// The message text of each builder failure.
pub open spec fn ast_error_message(e: AstErrorModel) -> Seq<char> {
    match e {
        AstErrorModel::Structure(StructureError::MissingName) => "missing name"@,
        AstErrorModel::Structure(StructureError::MissingFieldKey) => "missing field key"@,
        AstErrorModel::Structure(StructureError::MissingFieldValue) => "missing field value"@,
        AstErrorModel::ValueType(tag, text) => {
            "unexpected value rule: "@ + tag_name(tag) + ", text: "@ + text
        },
    }
}

impl AstError {
    /// The human-readable message of this error.
    pub fn message(&self) -> (s: String)
        ensures
            s@ == ast_error_message(self.deep_view()),
    {
        match self {
            AstError::Structure(StructureError::MissingName) => "missing name".to_owned(),
            AstError::Structure(StructureError::MissingFieldKey) => "missing field key".to_owned(),
            AstError::Structure(StructureError::MissingFieldValue) => {
                "missing field value".to_owned()
            },
            AstError::ValueType(e) => {
                "unexpected value rule: ".to_owned().concat(e.tag.name().as_str()).concat(
                    ", text: ",
                ).concat(e.text.as_str())
            },
        }
    }
}

/// Whether `c` is an ASCII decimal digit.
pub open spec fn is_digit_char(c: char) -> bool {
    48 <= c as u32 && c as u32 <= 57
}

/// Whether `s` is one or more decimal digits.
pub open spec fn all_digits(s: Seq<char>) -> bool {
    s.len() > 0 && forall|i: int| 0 <= i < s.len() ==> is_digit_char(s[i])
}

/// Whether `s` is an unsigned decimal numeral: digits, with at most one
/// point carrying digits on both sides.
pub open spec fn number_body(s: Seq<char>) -> bool {
    all_digits(s) || exists|k: int|
        0 < k < s.len() && s[k] == '.' && all_digits(s.subrange(0, k)) && all_digits(
            s.subrange(k + 1, s.len() as int),
        )
}

/// Whether `s` is a decimal numeral with an optional leading minus sign:
/// the shape of text a number node may carry.
pub open spec fn number_text(s: Seq<char>) -> bool {
    if s.len() > 0 && s[0] == '-' {
        number_body(s.subrange(1, s.len() as int))
    } else {
        number_body(s)
    }
}

/// The text of a string literal with exactly one layer of delimiters
/// stripped: three quote characters from each end of a triple-quoted
/// literal, else one from each end of a quoted literal, else the text
/// unchanged.
pub open spec fn stripped_text(s: Seq<char>) -> Seq<char> {
    if s.len() >= 6 && s[0] == '"' && s[1] == '"' && s[2] == '"' && s[s.len() - 1] == '"'
        && s[s.len() - 2] == '"' && s[s.len() - 3] == '"' {
        s.subrange(3, s.len() - 3)
    } else if s.len() >= 2 && s[0] == '"' && s[s.len() - 1] == '"' {
        s.subrange(1, s.len() - 1)
    } else {
        s
    }
}

/// The five tags of the value grammar.
pub open spec fn is_value_tag(t: NodeTag) -> bool {
    t == NodeTag::StringLit || t == NodeTag::NumberLit || t == NodeTag::BooleanLit || t
        == NodeTag::ListLit || t == NodeTag::IdentifierLit
}

/// What the value parser returns for `node`: the model of the parsed
/// value, or the error it fails with. String nodes strip one delimiter
/// layer; number nodes must carry a decimal numeral; boolean nodes accept
/// exactly the spellings `true` and `false`; list nodes parse every child
/// in source order, failing on the first child that fails; identifier
/// nodes keep their text verbatim; any other tag is an unexpected rule.
pub open spec fn value_model_of(node: ParseNode) -> Result<ValueModel, AstErrorModel>
    decreases node,
    via value_model_of_decreases
{
    match node.tag {
        NodeTag::StringLit => Ok(ValueModel::Str(stripped_text(node.text@))),
        NodeTag::NumberLit => if number_text(node.text@) {
            Ok(ValueModel::Num(node.text@))
        } else {
            Err(AstErrorModel::ValueType(NodeTag::NumberLit, node.text@))
        },
        NodeTag::BooleanLit => if node.text@ == "true"@ {
            Ok(ValueModel::Bool(true))
        } else if node.text@ == "false"@ {
            Ok(ValueModel::Bool(false))
        } else {
            Err(AstErrorModel::ValueType(NodeTag::BooleanLit, node.text@))
        },
        NodeTag::ListLit => match list_models_of(node.children@) {
            Ok(ms) => Ok(ValueModel::List(ms)),
            Err(e) => Err(e),
        },
        NodeTag::IdentifierLit => Ok(ValueModel::Ident(node.text@)),
        _ => Err(AstErrorModel::ValueType(node.tag, node.text@)),
    }
}

/// The models of a sequence of value nodes, in order, or the error of the
/// first node that fails to parse.
pub open spec fn list_models_of(cs: Seq<ParseNode>) -> Result<Seq<ValueModel>, AstErrorModel>
    decreases cs,
    via list_models_of_decreases
{
    if cs.len() == 0 {
        Ok(Seq::empty())
    } else {
        match value_model_of(cs[0]) {
            Err(e) => Err(e),
            Ok(m) => match list_models_of(cs.drop_first()) {
                Err(e) => Err(e),
                Ok(ms) => Ok(seq![m] + ms),
            },
        }
    }
}

#[via_fn]
proof fn value_model_of_decreases(node: ParseNode) {
    match node.tag {
        NodeTag::ListLit => {
            assert(decreases_to!(node => node.children));
            assert(decreases_to!(node.children => node.children@));
        },
        _ => (),
    }
}

#[via_fn]
proof fn list_models_of_decreases(cs: Seq<ParseNode>) {
    if cs.len() != 0 {
        vstd::seq::axiom_seq_index_decreases(cs, 0);
        vstd::seq::axiom_seq_subrange_decreases(cs, 1, cs.len() as int);
        assert(cs.drop_first() == cs.subrange(1, cs.len() as int));
    }
}

/// Strips one layer of string delimiters from `s`, as the value grammar's
/// string rule demands.
fn strip_delimiters(s: &String) -> (r: String)
    ensures
        r@ == stripped_text(s@),
{
    let t = s.as_str();
    let n = t.unicode_len();
    let q = '"';
    if n >= 6 && t.get_char(0) == q && t.get_char(1) == q && t.get_char(2) == q && t.get_char(n - 1)
        == q && t.get_char(n - 2) == q && t.get_char(n - 3) == q {
        t.substring_char(3, n - 3).to_owned()
    } else if n >= 2 && t.get_char(0) == q && t.get_char(n - 1) == q {
        t.substring_char(1, n - 1).to_owned()
    } else {
        s.clone()
    }
}

/// Decides [`number_text`] for the matched text of a number node.
fn is_number_literal(s: &str) -> (r: bool)
    ensures
        r == number_text(s@),
{
    let n = s.unicode_len();
    if n == 0 {
        return false;
    }
    let neg = s.get_char(0) == '-';
    let start: usize = if neg {
        1
    } else {
        0
    };
    let ghost body = s@.subrange(start as int, n as int);
    proof {
        if !neg {
            assert(body =~= s@);
        }
        assert(number_text(s@) == number_body(body));
    }
    if start == n {
        // a bare minus sign: the body is empty
        return false;
    }
    let mut i: usize = start;
    let mut has_dot = false;
    let mut dot: usize = 0;
    while i < n
        invariant
            n == s@.len(),
            start <= i <= n,
            start < n,
            start <= 1,
            body == s@.subrange(start as int, n as int),
            number_text(s@) == number_body(body),
            has_dot ==> start <= dot < i && s@[dot as int] == '.',
            forall|j: int|
                start <= j < i && (!has_dot || j != dot) ==> is_digit_char(#[trigger] s@[j]),
        decreases n - i,
    {
        let c = s.get_char(i);
        let u = c as u32;
        if c == '.' {
            if has_dot {
                // a second point: no split can put digits on both sides
                proof {
                    let k1 = dot - start;
                    let k2 = i - start;
                    assert(body[k1] == '.' && body[k2] == '.');
                    assert(!is_digit_char('.'));
                    assert(!all_digits(body));
                    assert forall|k: int| !(0 < k < body.len() && body[k] == '.' && all_digits(
                        body.subrange(0, k),
                    ) && all_digits(body.subrange(k + 1, body.len() as int))) by {
                        if 0 < k < body.len() {
                            if k < k2 {
                                assert(body.subrange(k + 1, body.len() as int)[k2 - k - 1]
                                    == '.');
                            } else {
                                assert(body.subrange(0, k)[k1] == '.');
                            }
                        }
                    }
                }
                return false;
            }
            has_dot = true;
            dot = i;
        } else if !(48 <= u && u <= 57) {
            // neither a digit nor a point
            proof {
                let p = i - start;
                assert(body[p] == c && !is_digit_char(c) && c != '.');
                assert(!all_digits(body));
                assert forall|k: int| !(0 < k < body.len() && body[k] == '.' && all_digits(
                    body.subrange(0, k),
                ) && all_digits(body.subrange(k + 1, body.len() as int))) by {
                    if 0 < k < body.len() && body[k] == '.' {
                        if k < p {
                            assert(body.subrange(k + 1, body.len() as int)[p - k - 1] == c);
                        } else if k > p {
                            assert(body.subrange(0, k)[p] == c);
                        }
                    }
                }
            }
            return false;
        }
        i += 1;
    }
    if has_dot {
        let ok = dot > start && dot + 1 < n;
        proof {
            let k = dot - start;
            assert(body[k] == '.');
            assert(!is_digit_char('.'));
            assert(!all_digits(body));
            if ok {
                assert(all_digits(body.subrange(0, k))) by {
                    assert forall|j: int| 0 <= j < k implies is_digit_char(
                        #[trigger] body.subrange(0, k)[j],
                    ) by {
                        assert(body.subrange(0, k)[j] == s@[j + start]);
                    }
                }
                assert(all_digits(body.subrange(k + 1, body.len() as int))) by {
                    assert forall|j: int| 0 <= j < body.len() - k - 1 implies is_digit_char(
                        #[trigger] body.subrange(k + 1, body.len() as int)[j],
                    ) by {
                        assert(body.subrange(k + 1, body.len() as int)[j] == s@[j + dot + 1]);
                    }
                }
                assert(number_body(body));
            } else {
                assert forall|kk: int| !(0 < kk < body.len() && body[kk] == '.' && all_digits(
                    body.subrange(0, kk),
                ) && all_digits(body.subrange(kk + 1, body.len() as int))) by {
                    if 0 < kk < body.len() && body[kk] == '.' {
                        if kk != k {
                            assert(is_digit_char(body[kk]));
                        } else if k == 0 {
                        } else {
                            assert(k == body.len() - 1);
                            assert(body.subrange(k + 1, body.len() as int).len() == 0);
                        }
                    }
                }
                assert(!number_body(body));
            }
        }
        return ok;
    }
    proof {
        assert forall|j: int| 0 <= j < body.len() implies is_digit_char(#[trigger] body[j]) by {
            assert(body[j] == s@[j + start]);
        }
        assert(all_digits(body));
    }
    true
}

/// Parses one value-shaped parse-tree node into a [`Value`], or fails
/// with the error that [`value_model_of`] assigns to the node.
pub fn parse_value(node: &ParseNode) -> (r: Result<Value, AstError>)
    ensures
        match r {
            Ok(v) => value_model_of(*node) == Ok::<ValueModel, AstErrorModel>(v.deep_view()),
            Err(e) => value_model_of(*node) == Err::<ValueModel, AstErrorModel>(e.deep_view()),
        },
    decreases *node,
{
    match node.tag {
        NodeTag::StringLit => Ok(Value::String(strip_delimiters(&node.text))),
        NodeTag::NumberLit => {
            if is_number_literal(node.text.as_str()) {
                Ok(Value::Number(node.text.clone()))
            } else {
                Err(AstError::ValueType(ValueTypeError { tag: node.tag, text: node.text.clone() }))
            }
        },
        NodeTag::BooleanLit => {
            if node.text == "true".to_owned() {
                Ok(Value::Boolean(true))
            } else if node.text == "false".to_owned() {
                Ok(Value::Boolean(false))
            } else {
                Err(AstError::ValueType(ValueTypeError { tag: node.tag, text: node.text.clone() }))
            }
        },
        NodeTag::ListLit => {
            let n = node.children.len();
            let mut vals: Vec<Value> = Vec::new();
            let ghost mut acc: Seq<ValueModel> = Seq::empty();
            let mut i: usize = 0;
            proof {
                assert(node.children@.subrange(0, n as int) =~= node.children@);
                assert(Seq::<ValueModel>::empty() + list_models_of(node.children@)->Ok_0
                    =~= list_models_of(node.children@)->Ok_0);
            }
            while i < n
                invariant
                    node.tag == NodeTag::ListLit,
                    n == node.children@.len(),
                    i <= n,
                    acc == value_models(vals@),
                    acc.len() == i,
                    (match list_models_of(node.children@.subrange(i as int, n as int)) {
                        Ok(ms) => list_models_of(node.children@) == Ok::<
                            Seq<ValueModel>,
                            AstErrorModel,
                        >(acc + ms),
                        Err(e) => list_models_of(node.children@) == Err::<
                            Seq<ValueModel>,
                            AstErrorModel,
                        >(e),
                    }),
                decreases n - i,
            {
                proof {
                    assert(decreases_to!(*node => node.children));
                    vstd::std_specs::vec::axiom_vec_index_decreases(node.children, i as int);
                    let sfx = node.children@.subrange(i as int, n as int);
                    assert(sfx[0] == node.children@[i as int]);
                    assert(sfx.drop_first() =~= node.children@.subrange(i as int + 1, n as int));
                }
                let ghost pre_vals = vals@;
                let ghost pre_acc = acc;
                match parse_value(&node.children[i]) {
                    Ok(v) => {
                        let ghost m = v.deep_view();
                        vals.push(v);
                        proof {
                            acc = acc.push(m);
                            assert(vals@.drop_last() =~= pre_vals);
                            assert(vals@.last() == v);
                            assert(acc == value_models(vals@));
                            let rest = node.children@.subrange(i as int + 1, n as int);
                            match list_models_of(rest) {
                                Ok(ms2) => {
                                    assert(pre_acc + (seq![m] + ms2) =~= acc + ms2);
                                },
                                Err(e2) => {},
                            }
                        }
                    },
                    Err(e) => {
                        proof {
                            let sfx = node.children@.subrange(i as int, n as int);
                            assert(sfx[0] == node.children@[i as int]);
                            assert(value_model_of(sfx[0]) == Err::<ValueModel, AstErrorModel>(
                                e.deep_view(),
                            ));
                            assert(list_models_of(sfx) == Err::<Seq<ValueModel>, AstErrorModel>(
                                e.deep_view(),
                            ));
                        }
                        return Err(e);
                    },
                }
                i += 1;
            }
            proof {
                assert(node.children@.subrange(n as int, n as int) =~= Seq::<ParseNode>::empty());
                assert(acc + Seq::<ValueModel>::empty() =~= acc);
            }
            Ok(Value::List(vals))
        },
        NodeTag::IdentifierLit => Ok(Value::Identifier(node.text.clone())),
        _ => Err(AstError::ValueType(ValueTypeError { tag: node.tag, text: node.text.clone() })),
    }
}

/// Round trip between grammar category and value shape: whenever a node
/// parses to a value, the value's tag matches the node's grammar rule,
/// and only the five value rules produce values at all.
pub proof fn lemma_value_tag_round_trip(node: ParseNode)
    requires
        value_model_of(node) is Ok,
    ensures
        is_value_tag(node.tag),
        (value_model_of(node)->Ok_0 is Str) == (node.tag == NodeTag::StringLit),
        (value_model_of(node)->Ok_0 is Num) == (node.tag == NodeTag::NumberLit),
        (value_model_of(node)->Ok_0 is Bool) == (node.tag == NodeTag::BooleanLit),
        (value_model_of(node)->Ok_0 is List) == (node.tag == NodeTag::ListLit),
        (value_model_of(node)->Ok_0 is Ident) == (node.tag == NodeTag::IdentifierLit),
{
}

/// One parsed declaration, tagged with its kind. `CoreEvent` is a kind of
/// its own from the start; there is no promotion from `Event`.
#[derive(Debug, PartialEq)]
pub enum Citizen {
    Origin(Origin),
    Timeline(Timeline),
    Event(Event),
    CoreEvent(CoreEvent),
    Niche(Niche),
    Era(Era),
    Generator(Generator),
    Memory(Memory),
    Immune(Immune),
}

/// Mathematical model of [`Citizen`]: the kind tag over the shared
/// record shape.
pub enum CitizenModel {
    Origin(RecordModel),
    Timeline(RecordModel),
    Event(RecordModel),
    CoreEvent(RecordModel),
    Niche(RecordModel),
    Era(RecordModel),
    Generator(RecordModel),
    Memory(RecordModel),
    Immune(RecordModel),
}

impl DeepView for Citizen {
    type V = CitizenModel;

    open spec fn deep_view(&self) -> CitizenModel {
        match self {
            Citizen::Origin(c) => CitizenModel::Origin(c.deep_view()),
            Citizen::Timeline(c) => CitizenModel::Timeline(c.deep_view()),
            Citizen::Event(c) => CitizenModel::Event(c.deep_view()),
            Citizen::CoreEvent(c) => CitizenModel::CoreEvent(c.deep_view()),
            Citizen::Niche(c) => CitizenModel::Niche(c.deep_view()),
            Citizen::Era(c) => CitizenModel::Era(c.deep_view()),
            Citizen::Generator(c) => CitizenModel::Generator(c.deep_view()),
            Citizen::Memory(c) => CitizenModel::Memory(c.deep_view()),
            Citizen::Immune(c) => CitizenModel::Immune(c.deep_view()),
        }
    }
}

/// The nine tags that open a declaration.
pub open spec fn is_citizen_tag(t: NodeTag) -> bool {
    t == NodeTag::Origin || t == NodeTag::Timeline || t == NodeTag::Event || t
        == NodeTag::CoreEvent || t == NodeTag::Niche || t == NodeTag::Era || t
        == NodeTag::Generator || t == NodeTag::Memory || t == NodeTag::Immune
}

/// The (key, value-model) pairs of the field nodes among `cs`, in source
/// order, or the error of the first malformed field. Children that are
/// not field nodes are ignored. A field node's first child carries the
/// key, its second the value.
pub open spec fn field_entries_of(cs: Seq<ParseNode>) -> Result<
    Seq<(Seq<char>, ValueModel)>,
    AstErrorModel,
>
    decreases cs,
    via field_entries_of_decreases
{
    if cs.len() == 0 {
        Ok(Seq::empty())
    } else if cs[0].tag != NodeTag::Field {
        field_entries_of(cs.drop_first())
    } else if cs[0].children@.len() == 0 {
        Err(AstErrorModel::Structure(StructureError::MissingFieldKey))
    } else if cs[0].children@.len() == 1 {
        Err(AstErrorModel::Structure(StructureError::MissingFieldValue))
    } else {
        match value_model_of(cs[0].children@[1]) {
            Err(e) => Err(e),
            Ok(m) => match field_entries_of(cs.drop_first()) {
                Err(e) => Err(e),
                Ok(es) => Ok(seq![(cs[0].children@[0].text@, m)] + es),
            },
        }
    }
}

#[via_fn]
proof fn field_entries_of_decreases(cs: Seq<ParseNode>) {
    if cs.len() != 0 {
        vstd::seq::axiom_seq_subrange_decreases(cs, 1, cs.len() as int);
        assert(cs.drop_first() == cs.subrange(1, cs.len() as int));
    }
}

/// What the builder makes of one declaration node: its first child names
/// the declaration, the field nodes among the rest fill the field
/// mapping in encounter order, a later key silently overwriting an
/// earlier one. A declaration without any child has no name, which the
/// grammar contract rules out, so it is a structural error.
pub open spec fn record_model_of(node: ParseNode) -> Result<RecordModel, AstErrorModel> {
    if node.children@.len() == 0 {
        Err(AstErrorModel::Structure(StructureError::MissingName))
    } else {
        match field_entries_of(node.children@.drop_first()) {
            Err(e) => Err(e),
            Ok(es) => Ok(
                RecordModel {
                    name: node.children@[0].text@,
                    fields: crate::name_map::entry_map(es),
                },
            ),
        }
    }
}

/// The model of one declaration node together with its kind tag.
pub open spec fn citizen_model_of(node: ParseNode) -> Result<CitizenModel, AstErrorModel>
    recommends
        is_citizen_tag(node.tag),
{
    match record_model_of(node) {
        Err(e) => Err(e),
        Ok(rm) => Ok(
            match node.tag {
                NodeTag::Origin => CitizenModel::Origin(rm),
                NodeTag::Timeline => CitizenModel::Timeline(rm),
                NodeTag::Event => CitizenModel::Event(rm),
                NodeTag::CoreEvent => CitizenModel::CoreEvent(rm),
                NodeTag::Niche => CitizenModel::Niche(rm),
                NodeTag::Era => CitizenModel::Era(rm),
                NodeTag::Generator => CitizenModel::Generator(rm),
                NodeTag::Memory => CitizenModel::Memory(rm),
                _ => CitizenModel::Immune(rm),
            },
        ),
    }
}

/// The citizens declared by the top-level nodes `cs`, in source order, or
/// the error of the first declaration that fails to build. Top-level
/// nodes that are not declarations are ignored.
pub open spec fn citizens_model_of(cs: Seq<ParseNode>) -> Result<Seq<CitizenModel>, AstErrorModel>
    decreases cs,
    via citizens_model_of_decreases
{
    if cs.len() == 0 {
        Ok(Seq::empty())
    } else if !is_citizen_tag(cs[0].tag) {
        citizens_model_of(cs.drop_first())
    } else {
        match citizen_model_of(cs[0]) {
            Err(e) => Err(e),
            Ok(cm) => match citizens_model_of(cs.drop_first()) {
                Err(e) => Err(e),
                Ok(cms) => Ok(seq![cm] + cms),
            },
        }
    }
}

#[via_fn]
proof fn citizens_model_of_decreases(cs: Seq<ParseNode>) {
    if cs.len() != 0 {
        vstd::seq::axiom_seq_subrange_decreases(cs, 1, cs.len() as int);
        assert(cs.drop_first() == cs.subrange(1, cs.len() as int));
    }
}

/// Builds the shared record shape out of one declaration node: the name
/// from the first child, the field mapping from the field nodes after it.
fn parse_record(node: &ParseNode) -> (r: Result<(String, NameMap<Value>), AstError>)
    ensures
        match r {
            Ok(p) => record_model_of(*node) == Ok::<RecordModel, AstErrorModel>(
                RecordModel { name: p.0@, fields: p.1.deep_view() },
            ),
            Err(e) => record_model_of(*node) == Err::<RecordModel, AstErrorModel>(e.deep_view()),
        },
{
    let n = node.children.len();
    if n == 0 {
        return Err(AstError::Structure(StructureError::MissingName));
    }
    let name = node.children[0].text.clone();
    let mut fields: NameMap<Value> = NameMap::new();
    let ghost mut pre: Seq<(Seq<char>, ValueModel)> = Seq::empty();
    let mut i: usize = 1;
    proof {
        assert(node.children@.subrange(1, n as int) =~= node.children@.drop_first());
        assert(Seq::<(Seq<char>, ValueModel)>::empty() + field_entries_of(
            node.children@.drop_first(),
        )->Ok_0 =~= field_entries_of(node.children@.drop_first())->Ok_0);
        assert(fields.deep_view() =~= crate::name_map::entry_map(pre));
    }
    while i < n
        invariant
            n == node.children@.len(),
            1 <= i <= n,
            fields.deep_view() == crate::name_map::entry_map(pre),
            (match field_entries_of(node.children@.subrange(i as int, n as int)) {
                Ok(es) => field_entries_of(node.children@.drop_first()) == Ok::<
                    Seq<(Seq<char>, ValueModel)>,
                    AstErrorModel,
                >(pre + es),
                Err(e) => field_entries_of(node.children@.drop_first()) == Err::<
                    Seq<(Seq<char>, ValueModel)>,
                    AstErrorModel,
                >(e),
            }),
        decreases n - i,
    {
        let ghost sfx = node.children@.subrange(i as int, n as int);
        proof {
            assert(sfx[0] == node.children@[i as int]);
            assert(sfx.drop_first() =~= node.children@.subrange(i as int + 1, n as int));
        }
        let child = &node.children[i];
        if child.tag == NodeTag::Field {
            proof {
                assert(sfx[0].tag == NodeTag::Field);
            }
            if child.children.len() == 0 {
                return Err(AstError::Structure(StructureError::MissingFieldKey));
            }
            if child.children.len() == 1 {
                return Err(AstError::Structure(StructureError::MissingFieldValue));
            }
            let key = child.children[0].text.clone();
            match parse_value(&child.children[1]) {
                Err(e) => {
                    return Err(e);
                },
                Ok(v) => {
                    let ghost m = v.deep_view();
                    let ghost pre_old = pre;
                    fields.insert(key, v);
                    proof {
                        crate::name_map::lemma_entry_map_push(pre_old, (key@, m));
                        pre = pre.push((key@, m));
                        assert(value_model_of(sfx[0].children@[1]) == Ok::<
                            ValueModel,
                            AstErrorModel,
                        >(m));
                        match field_entries_of(node.children@.subrange(i as int + 1, n as int)) {
                            Ok(es2) => {
                                assert(field_entries_of(sfx) == Ok::<
                                    Seq<(Seq<char>, ValueModel)>,
                                    AstErrorModel,
                                >(seq![(key@, m)] + es2));
                                assert(pre_old + (seq![(key@, m)] + es2) =~= pre + es2);
                            },
                            Err(e2) => {
                                assert(field_entries_of(sfx) == Err::<
                                    Seq<(Seq<char>, ValueModel)>,
                                    AstErrorModel,
                                >(e2));
                            },
                        }
                    }
                },
            }
        } else {
            proof {
                assert(sfx[0].tag != NodeTag::Field);
                assert(field_entries_of(sfx) == field_entries_of(sfx.drop_first()));
            }
        }
        i += 1;
    }
    proof {
        assert(node.children@.subrange(n as int, n as int) =~= Seq::<ParseNode>::empty());
        assert(pre + Seq::<(Seq<char>, ValueModel)>::empty() =~= pre);
    }
    Ok((name, fields))
}

/// Builds an `Origin` declaration.
fn parse_origin(node: &ParseNode) -> (r: Result<Origin, AstError>)
    ensures
        match r {
            Ok(c) => record_model_of(*node) == Ok::<RecordModel, AstErrorModel>(c.deep_view()),
            Err(e) => record_model_of(*node) == Err::<RecordModel, AstErrorModel>(e.deep_view()),
        },
{
    let p = parse_record(node)?;
    Ok(Origin { name: p.0, fields: p.1 })
}

/// Builds a `Timeline` declaration.
fn parse_timeline(node: &ParseNode) -> (r: Result<Timeline, AstError>)
    ensures
        match r {
            Ok(c) => record_model_of(*node) == Ok::<RecordModel, AstErrorModel>(c.deep_view()),
            Err(e) => record_model_of(*node) == Err::<RecordModel, AstErrorModel>(e.deep_view()),
        },
{
    let p = parse_record(node)?;
    Ok(Timeline { name: p.0, fields: p.1 })
}

/// Builds an `Event` declaration.
fn parse_event(node: &ParseNode) -> (r: Result<Event, AstError>)
    ensures
        match r {
            Ok(c) => record_model_of(*node) == Ok::<RecordModel, AstErrorModel>(c.deep_view()),
            Err(e) => record_model_of(*node) == Err::<RecordModel, AstErrorModel>(e.deep_view()),
        },
{
    let p = parse_record(node)?;
    Ok(Event { name: p.0, fields: p.1 })
}

/// Builds a `CoreEvent` declaration.
fn parse_core_event(node: &ParseNode) -> (r: Result<CoreEvent, AstError>)
    ensures
        match r {
            Ok(c) => record_model_of(*node) == Ok::<RecordModel, AstErrorModel>(c.deep_view()),
            Err(e) => record_model_of(*node) == Err::<RecordModel, AstErrorModel>(e.deep_view()),
        },
{
    let p = parse_record(node)?;
    Ok(CoreEvent { name: p.0, fields: p.1 })
}

/// Builds a `Niche` declaration.
fn parse_niche(node: &ParseNode) -> (r: Result<Niche, AstError>)
    ensures
        match r {
            Ok(c) => record_model_of(*node) == Ok::<RecordModel, AstErrorModel>(c.deep_view()),
            Err(e) => record_model_of(*node) == Err::<RecordModel, AstErrorModel>(e.deep_view()),
        },
{
    let p = parse_record(node)?;
    Ok(Niche { name: p.0, fields: p.1 })
}

/// Builds an `Era` declaration.
fn parse_era(node: &ParseNode) -> (r: Result<Era, AstError>)
    ensures
        match r {
            Ok(c) => record_model_of(*node) == Ok::<RecordModel, AstErrorModel>(c.deep_view()),
            Err(e) => record_model_of(*node) == Err::<RecordModel, AstErrorModel>(e.deep_view()),
        },
{
    let p = parse_record(node)?;
    Ok(Era { name: p.0, fields: p.1 })
}

/// Builds a `Generator` declaration.
fn parse_generator(node: &ParseNode) -> (r: Result<Generator, AstError>)
    ensures
        match r {
            Ok(c) => record_model_of(*node) == Ok::<RecordModel, AstErrorModel>(c.deep_view()),
            Err(e) => record_model_of(*node) == Err::<RecordModel, AstErrorModel>(e.deep_view()),
        },
{
    let p = parse_record(node)?;
    Ok(Generator { name: p.0, fields: p.1 })
}

/// Builds a `Memory` declaration.
fn parse_memory(node: &ParseNode) -> (r: Result<Memory, AstError>)
    ensures
        match r {
            Ok(c) => record_model_of(*node) == Ok::<RecordModel, AstErrorModel>(c.deep_view()),
            Err(e) => record_model_of(*node) == Err::<RecordModel, AstErrorModel>(e.deep_view()),
        },
{
    let p = parse_record(node)?;
    Ok(Memory { name: p.0, fields: p.1 })
}

/// Builds an `Immune` declaration.
fn parse_immune(node: &ParseNode) -> (r: Result<Immune, AstError>)
    ensures
        match r {
            Ok(c) => record_model_of(*node) == Ok::<RecordModel, AstErrorModel>(c.deep_view()),
            Err(e) => record_model_of(*node) == Err::<RecordModel, AstErrorModel>(e.deep_view()),
        },
{
    let p = parse_record(node)?;
    Ok(Immune { name: p.0, fields: p.1 })
}

/// The AST builder's entry point.
pub struct CLDParser;

impl CLDParser {
    /// Builds the citizen sequence of a whole document node: every child
    /// with a declaration tag becomes a citizen, in source order; any
    /// other child is ignored; the first declaration that fails to build
    /// decides the error.
    pub fn parse_cld(doc: &ParseNode) -> (r: Result<Vec<Citizen>, AstError>)
        ensures
            match r {
                Ok(cs) => citizens_model_of(doc.children@) == Ok::<Seq<CitizenModel>, AstErrorModel>(
                    cs.deep_view(),
                ),
                Err(e) => citizens_model_of(doc.children@) == Err::<
                    Seq<CitizenModel>,
                    AstErrorModel,
                >(e.deep_view()),
            },
    {
        let n = doc.children.len();
        let mut out: Vec<Citizen> = Vec::new();
        let mut i: usize = 0;
        proof {
            assert(doc.children@.subrange(0, n as int) =~= doc.children@);
            assert(out.deep_view() + citizens_model_of(doc.children@)->Ok_0 =~= citizens_model_of(
                doc.children@,
            )->Ok_0);
        }
        while i < n
            invariant
                n == doc.children@.len(),
                i <= n,
                (match citizens_model_of(doc.children@.subrange(i as int, n as int)) {
                    Ok(cms) => citizens_model_of(doc.children@) == Ok::<
                        Seq<CitizenModel>,
                        AstErrorModel,
                    >(out.deep_view() + cms),
                    Err(e) => citizens_model_of(doc.children@) == Err::<
                        Seq<CitizenModel>,
                        AstErrorModel,
                    >(e),
                }),
            decreases n - i,
        {
            let ghost sfx = doc.children@.subrange(i as int, n as int);
            proof {
                assert(sfx[0] == doc.children@[i as int]);
                assert(sfx.drop_first() =~= doc.children@.subrange(i as int + 1, n as int));
            }
            let child = &doc.children[i];
            let ghost pre_out = out.deep_view();
            let built: Option<Result<Citizen, AstError>> = match child.tag {
                NodeTag::Origin => Some(
                    match parse_origin(child) {
                        Ok(c) => Ok(Citizen::Origin(c)),
                        Err(e) => Err(e),
                    },
                ),
                NodeTag::Timeline => Some(
                    match parse_timeline(child) {
                        Ok(c) => Ok(Citizen::Timeline(c)),
                        Err(e) => Err(e),
                    },
                ),
                NodeTag::Event => Some(
                    match parse_event(child) {
                        Ok(c) => Ok(Citizen::Event(c)),
                        Err(e) => Err(e),
                    },
                ),
                NodeTag::CoreEvent => Some(
                    match parse_core_event(child) {
                        Ok(c) => Ok(Citizen::CoreEvent(c)),
                        Err(e) => Err(e),
                    },
                ),
                NodeTag::Niche => Some(
                    match parse_niche(child) {
                        Ok(c) => Ok(Citizen::Niche(c)),
                        Err(e) => Err(e),
                    },
                ),
                NodeTag::Era => Some(
                    match parse_era(child) {
                        Ok(c) => Ok(Citizen::Era(c)),
                        Err(e) => Err(e),
                    },
                ),
                NodeTag::Generator => Some(
                    match parse_generator(child) {
                        Ok(c) => Ok(Citizen::Generator(c)),
                        Err(e) => Err(e),
                    },
                ),
                NodeTag::Memory => Some(
                    match parse_memory(child) {
                        Ok(c) => Ok(Citizen::Memory(c)),
                        Err(e) => Err(e),
                    },
                ),
                NodeTag::Immune => Some(
                    match parse_immune(child) {
                        Ok(c) => Ok(Citizen::Immune(c)),
                        Err(e) => Err(e),
                    },
                ),
                _ => None,
            };
            match built {
                Some(Ok(c)) => {
                    let ghost cm = c.deep_view();
                    proof {
                        assert(citizen_model_of(sfx[0]) == Ok::<CitizenModel, AstErrorModel>(cm));
                    }
                    out.push(c);
                    proof {
                        assert(out.deep_view() =~= pre_out.push(cm));
                        match citizens_model_of(doc.children@.subrange(i as int + 1, n as int)) {
                            Ok(cms2) => {
                                assert(pre_out + (seq![cm] + cms2) =~= out.deep_view() + cms2);
                            },
                            Err(e2) => {},
                        }
                    }
                },
                Some(Err(e)) => {
                    proof {
                        assert(citizen_model_of(sfx[0]) == Err::<CitizenModel, AstErrorModel>(
                            e.deep_view(),
                        ));
                        assert(citizens_model_of(sfx) == Err::<Seq<CitizenModel>, AstErrorModel>(
                            e.deep_view(),
                        ));
                    }
                    return Err(e);
                },
                None => {
                },
            }
            i += 1;
        }
        proof {
            assert(doc.children@.subrange(n as int, n as int) =~= Seq::<ParseNode>::empty());
            assert(out.deep_view() + Seq::<CitizenModel>::empty() =~= out.deep_view());
        }
        Ok(out)
    }
}

} // verus!
