//! The world assembler and the validation engine.
//!
//! `World::from_citizens` aggregates an ordered citizen sequence into one
//! `World`, enforcing the singleton rule for `Origin`; `validate_world`
//! runs the ordered rule list against an assembled world and reports the
//! first rule that fails.

use crate::citizens::{
    CoreEvent, Era, Event, Generator, Immune, Memory, Niche, Origin, RecordModel, Timeline, Value,
    ValueModel, value_model, value_models, lemma_value_models_pointwise,
};
use crate::name_map::NameMap;
use crate::parser::{Citizen, CitizenModel};
use vstd::prelude::*;

verus! {

broadcast use vstd::std_specs::vec::group_vec_axioms;

/// A complete CLD world: at most one origin, and one name-keyed
/// collection per remaining citizen kind.
#[derive(Debug, PartialEq)]
pub struct World {
    pub origin: Option<Origin>,
    pub timelines: NameMap<Timeline>,
    pub events: NameMap<Event>,
    pub core_events: NameMap<CoreEvent>,
    pub niches: NameMap<Niche>,
    pub eras: NameMap<Era>,
    pub generators: NameMap<Generator>,
    pub memories: NameMap<Memory>,
    pub immunes: NameMap<Immune>,
}

/// Mathematical model of a [`World`].
pub struct WorldModel {
    pub origin: Option<RecordModel>,
    pub timelines: Map<Seq<char>, RecordModel>,
    pub events: Map<Seq<char>, RecordModel>,
    pub core_events: Map<Seq<char>, RecordModel>,
    pub niches: Map<Seq<char>, RecordModel>,
    pub eras: Map<Seq<char>, RecordModel>,
    pub generators: Map<Seq<char>, RecordModel>,
    pub memories: Map<Seq<char>, RecordModel>,
    pub immunes: Map<Seq<char>, RecordModel>,
}

impl DeepView for World {
    type V = WorldModel;

    open spec fn deep_view(&self) -> WorldModel {
        WorldModel {
            origin: self.origin.deep_view(),
            timelines: self.timelines.deep_view(),
            events: self.events.deep_view(),
            core_events: self.core_events.deep_view(),
            niches: self.niches.deep_view(),
            eras: self.eras.deep_view(),
            generators: self.generators.deep_view(),
            memories: self.memories.deep_view(),
            immunes: self.immunes.deep_view(),
        }
    }
}

/// Assembling a world can only fail one way: on a second `Origin`.
#[derive(Debug, Clone, Copy, PartialEq, Eq, Structural)]
pub enum ConstructionError {
    MultipleOrigin,
}

/// The model of a world with nothing in it.
pub open spec fn empty_world_model() -> WorldModel {
    WorldModel {
        origin: None,
        timelines: Map::empty(),
        events: Map::empty(),
        core_events: Map::empty(),
        niches: Map::empty(),
        eras: Map::empty(),
        generators: Map::empty(),
        memories: Map::empty(),
        immunes: Map::empty(),
    }
}

/// One assembly step: route the citizen to its collection, keyed by its
/// name (a later citizen of the same kind and name replaces an earlier
/// one), or fail if it is a second origin.
pub open spec fn assemble_step(w: WorldModel, c: CitizenModel) -> Result<
    WorldModel,
    ConstructionError,
> {
    match c {
        CitizenModel::Origin(rm) => if w.origin is Some {
            Err(ConstructionError::MultipleOrigin)
        } else {
            Ok(WorldModel { origin: Some(rm), ..w })
        },
        CitizenModel::Timeline(rm) => Ok(
            WorldModel { timelines: w.timelines.insert(rm.name, rm), ..w },
        ),
        CitizenModel::Event(rm) => Ok(WorldModel { events: w.events.insert(rm.name, rm), ..w }),
        CitizenModel::CoreEvent(rm) => Ok(
            WorldModel { core_events: w.core_events.insert(rm.name, rm), ..w },
        ),
        CitizenModel::Niche(rm) => Ok(WorldModel { niches: w.niches.insert(rm.name, rm), ..w }),
        CitizenModel::Era(rm) => Ok(WorldModel { eras: w.eras.insert(rm.name, rm), ..w }),
        CitizenModel::Generator(rm) => Ok(
            WorldModel { generators: w.generators.insert(rm.name, rm), ..w },
        ),
        CitizenModel::Memory(rm) => Ok(
            WorldModel { memories: w.memories.insert(rm.name, rm), ..w },
        ),
        CitizenModel::Immune(rm) => Ok(WorldModel { immunes: w.immunes.insert(rm.name, rm), ..w }),
    }
}

/// The world assembled from `cs`, processed in order starting from the
/// empty world, or the error of the step that fails.
pub open spec fn assemble_model(cs: Seq<CitizenModel>) -> Result<WorldModel, ConstructionError>
    decreases cs.len(),
{
    if cs.len() == 0 {
        Ok(empty_world_model())
    } else {
        match assemble_model(cs.drop_last()) {
            Err(e) => Err(e),
            Ok(w) => assemble_step(w, cs.last()),
        }
    }
}

/// Once a prefix fails to assemble, the whole sequence fails with the
/// same error: assembly is fail-fast.
pub proof fn lemma_assemble_err_persists(cs: Seq<CitizenModel>, i: int)
    requires
        0 <= i <= cs.len(),
        assemble_model(cs.take(i)) is Err,
    ensures
        assemble_model(cs) == assemble_model(cs.take(i)),
    decreases cs.len() - i,
{
    if i == cs.len() {
        assert(cs.take(i) =~= cs);
    } else {
        assert(cs.take(i + 1).drop_last() =~= cs.take(i));
        lemma_assemble_err_persists(cs, i + 1);
    }
}

/// How many origins a citizen sequence declares.
pub open spec fn origin_count(cs: Seq<CitizenModel>) -> nat
    decreases cs.len(),
{
    if cs.len() == 0 {
        0
    } else {
        origin_count(cs.drop_last()) + (if cs.last() is Origin {
            1nat
        } else {
            0nat
        })
    }
}

/// Assembly is a pure function of the citizen sequence: the same
/// sequence assembled twice yields identical worlds (or the identical
/// error). `World::from_citizens` pins its result to `assemble_model`,
/// so two runs over equal inputs cannot diverge.
pub proof fn lemma_assemble_deterministic(cs1: Seq<CitizenModel>, cs2: Seq<CitizenModel>)
    requires
        cs1 == cs2,
    ensures
        assemble_model(cs1) == assemble_model(cs2),
{
}

/// A world that assembles holds at most one origin: its `origin` field
/// is `None` exactly when the input declared no origin, and one origin
/// otherwise; a second origin declaration never assembles.
pub proof fn lemma_origin_unique(cs: Seq<CitizenModel>)
    requires
        assemble_model(cs) is Ok,
    ensures
        origin_count(cs) <= 1,
        (assemble_model(cs)->Ok_0.origin is Some) == (origin_count(cs) == 1),
    decreases cs.len(),
{
    if cs.len() != 0 {
        lemma_origin_unique(cs.drop_last());
        let w = assemble_model(cs.drop_last())->Ok_0;
        match cs.last() {
            CitizenModel::Origin(rm) => {
                assert(w.origin is None);
                assert(origin_count(cs.drop_last()) == 0);
                assert(origin_count(cs) == 1);
            },
            _ => {
                assert(origin_count(cs) == origin_count(cs.drop_last()));
                assert(assemble_model(cs)->Ok_0.origin == w.origin);
            },
        }
    }
}

impl World {
    /// A world with nothing in it.
    pub fn new() -> (w: Self)
        ensures
            w.deep_view() == empty_world_model(),
    {
        World {
            origin: None,
            timelines: NameMap::new(),
            events: NameMap::new(),
            core_events: NameMap::new(),
            niches: NameMap::new(),
            eras: NameMap::new(),
            generators: NameMap::new(),
            memories: NameMap::new(),
            immunes: NameMap::new(),
        }
    }

    /// Assembles a world from an ordered citizen sequence: a pure
    /// function of its input. Each citizen goes to the collection of its
    /// kind under its name; a second `Origin` fails the whole assembly
    /// at once.
    pub fn from_citizens(citizens: Vec<Citizen>) -> (r: Result<World, ConstructionError>)
        ensures
            match r {
                Ok(w) => assemble_model(citizens.deep_view()) == Ok::<WorldModel, ConstructionError>(
                    w.deep_view(),
                ),
                Err(e) => assemble_model(citizens.deep_view()) == Err::<
                    WorldModel,
                    ConstructionError,
                >(e),
            },
    {
        let ghost cms = citizens.deep_view();
        let mut world = World::new();
        proof {
            assert(cms.take(0) =~= Seq::<CitizenModel>::empty());
        }
        for c in iter: citizens.into_iter()
            invariant
                cms == citizens.deep_view(),
                iter.seq().len() == cms.len(),
                forall|j: int| 0 <= j < cms.len() ==> cms[j] == iter.seq()[j].deep_view(),
                assemble_model(cms.take(iter.index() as int)) == Ok::<
                    WorldModel,
                    ConstructionError,
                >(world.deep_view()),
        {
            let ghost idx = iter.index() as int;
            let ghost cm = cms[idx];
            proof {
                assert(cms.take(idx + 1).drop_last() =~= cms.take(idx));
                assert(cms.take(idx + 1).last() == cm);
            }
            match c {
                Citizen::Origin(origin) => {
                    if world.origin.is_some() {
                        proof {
                            assert(c == iter.seq()[idx]);
                            assert(cm == CitizenModel::Origin(origin.deep_view()));
                            assert(assemble_model(cms.take(idx + 1)) == Err::<
                                WorldModel,
                                ConstructionError,
                            >(ConstructionError::MultipleOrigin));
                            lemma_assemble_err_persists(cms, idx + 1);
                        }
                        return Err(ConstructionError::MultipleOrigin);
                    }
                    world.origin = Some(origin);
                },
                Citizen::Timeline(timeline) => {
                    let name = timeline.name.clone();
                    world.timelines.insert(name, timeline);
                },
                Citizen::Event(event) => {
                    let name = event.name.clone();
                    world.events.insert(name, event);
                },
                Citizen::CoreEvent(core_event) => {
                    let name = core_event.name.clone();
                    world.core_events.insert(name, core_event);
                },
                Citizen::Niche(niche) => {
                    let name = niche.name.clone();
                    world.niches.insert(name, niche);
                },
                Citizen::Era(era) => {
                    let name = era.name.clone();
                    world.eras.insert(name, era);
                },
                Citizen::Generator(generator) => {
                    let name = generator.name.clone();
                    world.generators.insert(name, generator);
                },
                Citizen::Memory(memory) => {
                    let name = memory.name.clone();
                    world.memories.insert(name, memory);
                },
                Citizen::Immune(immune) => {
                    let name = immune.name.clone();
                    world.immunes.insert(name, immune);
                },
            }
        }
        proof {
            assert(cms.take(cms.len() as int) =~= cms);
        }
        Ok(world)
    }
}

/// The validation rules, in the order they run. New rules plug in as new
/// variants, appended to [`rule_list`] and dispatched in [`apply_rule`],
/// without touching the existing ones.
#[derive(Debug, Clone, Copy, PartialEq, Eq, Structural)]
pub enum ValidationRule {
    OriginExists,
    CoreAnchorsResolved,
}

/// The two shapes the core-anchor field can get wrong.
#[derive(Debug, Clone, Copy, PartialEq, Eq, Structural)]
pub enum TypeMismatchKind {
    AnchorsNotList,
    AnchorsNotIdentifiers,
}

/// A semantic rule failure, carrying enough context to name the rule, the
/// field, or the offending identifier.
#[derive(Debug, PartialEq)]
pub enum ValidationError {
    MissingOrigin,
    TypeMismatch(TypeMismatchKind),
    UnresolvedReference { rule: ValidationRule, name: String },
}

/// Mathematical model of [`ValidationError`].
pub enum ValidationIssue {
    MissingOrigin,
    TypeMismatch(TypeMismatchKind),
    UnresolvedReference { rule: ValidationRule, name: Seq<char> },
}

impl DeepView for ValidationError {
    type V = ValidationIssue;

    open spec fn deep_view(&self) -> ValidationIssue {
        match self {
            ValidationError::MissingOrigin => ValidationIssue::MissingOrigin,
            ValidationError::TypeMismatch(k) => ValidationIssue::TypeMismatch(*k),
            ValidationError::UnresolvedReference { rule, name } => {
                ValidationIssue::UnresolvedReference { rule: *rule, name: name@ }
            },
        }
    }
}

impl ConstructionError {
    /// The human-readable message of this error.
    pub fn message(&self) -> (s: String)
        ensures
            s@ == "Multiple @Origin declarations found"@,
    {
        "Multiple @Origin declarations found".to_owned()
    }
}

impl ValidationRule {
    /// The rule's name, as failure reports cite it.
    pub fn name(&self) -> (s: String)
        ensures
            s@ == (match self {
                ValidationRule::OriginExists => "OriginExists"@,
                ValidationRule::CoreAnchorsResolved => "CoreAnchorsResolved"@,
            }),
    {
        match self {
            ValidationRule::OriginExists => "OriginExists".to_owned(),
            ValidationRule::CoreAnchorsResolved => "CoreAnchorsResolved".to_owned(),
        }
    }
}

/// The message text of each validation failure.
pub open spec fn validation_message(e: ValidationIssue) -> Seq<char> {
    match e {
        ValidationIssue::MissingOrigin => "!Origin missing: A world must have exactly one @Origin"@,
        ValidationIssue::TypeMismatch(TypeMismatchKind::AnchorsNotList) => {
            "Origin.核心锚点 must be a list"@
        },
        ValidationIssue::TypeMismatch(TypeMismatchKind::AnchorsNotIdentifiers) => {
            "Origin.核心锚点 must contain only identifiers"@
        },
        ValidationIssue::UnresolvedReference { rule, name } => {
            "CoreEvent '"@ + name + "' referenced in Origin.核心锚点 is not defined"@
        },
    }
}

impl ValidationError {
    /// The human-readable message of this error.
    pub fn message(&self) -> (s: String)
        ensures
            s@ == validation_message(self.deep_view()),
    {
        match self {
            ValidationError::MissingOrigin => {
                "!Origin missing: A world must have exactly one @Origin".to_owned()
            },
            ValidationError::TypeMismatch(TypeMismatchKind::AnchorsNotList) => {
                "Origin.核心锚点 must be a list".to_owned()
            },
            ValidationError::TypeMismatch(TypeMismatchKind::AnchorsNotIdentifiers) => {
                "Origin.核心锚点 must contain only identifiers".to_owned()
            },
            ValidationError::UnresolvedReference { rule, name } => {
                "CoreEvent '".to_owned().concat(name.as_str()).concat(
                    "' referenced in Origin.核心锚点 is not defined",
                )
            },
        }
    }
}

/// The reserved origin field naming the core anchor set.
pub open spec fn anchors_key() -> Seq<char> {
    "核心锚点"@
}

/// The first complaint about the anchor list's elements, scanned in
/// order: an element that is not an identifier, or an identifier that no
/// core event is declared under; `None` when every element resolves.
pub open spec fn anchors_check(
    elems: Seq<ValueModel>,
    core_events: Map<Seq<char>, RecordModel>,
) -> Option<ValidationIssue>
    decreases elems.len(),
{
    if elems.len() == 0 {
        None
    } else {
        match elems[0] {
            ValueModel::Ident(name) => if core_events.contains_key(name) {
                anchors_check(elems.drop_first(), core_events)
            } else {
                Some(
                    ValidationIssue::UnresolvedReference {
                        rule: ValidationRule::CoreAnchorsResolved,
                        name: name,
                    },
                )
            },
            _ => Some(ValidationIssue::TypeMismatch(TypeMismatchKind::AnchorsNotIdentifiers)),
        }
    }
}

/// What one rule makes of a world: `None` when it passes, else its
/// failure.
///
/// `OriginExists` demands an origin. `CoreAnchorsResolved` passes
/// trivially when the origin has no core-anchor field; otherwise the
/// field must be a list of identifiers, each declared as a core event.
pub open spec fn rule_check(rule: ValidationRule, w: WorldModel) -> Option<ValidationIssue> {
    match rule {
        ValidationRule::OriginExists => if w.origin is Some {
            None
        } else {
            Some(ValidationIssue::MissingOrigin)
        },
        ValidationRule::CoreAnchorsResolved => match w.origin {
            None => Some(ValidationIssue::MissingOrigin),
            Some(o) => if !o.fields.contains_key(anchors_key()) {
                None
            } else {
                match o.fields[anchors_key()] {
                    ValueModel::List(elems) => anchors_check(elems, w.core_events),
                    _ => Some(ValidationIssue::TypeMismatch(TypeMismatchKind::AnchorsNotList)),
                }
            },
        },
    }
}

/// The failure of the first rule in `rules` that fails on `w`, if any:
/// validation is fail-fast, not an aggregate report.
pub open spec fn first_failure(rules: Seq<ValidationRule>, w: WorldModel) -> Option<ValidationIssue>
    decreases rules.len(),
{
    if rules.len() == 0 {
        None
    } else {
        match rule_check(rules[0], w) {
            Some(e) => Some(e),
            None => first_failure(rules.drop_first(), w),
        }
    }
}

/// The rule list that [`validate_world`] runs, in order.
pub open spec fn rule_list_spec() -> Seq<ValidationRule> {
    seq![ValidationRule::OriginExists, ValidationRule::CoreAnchorsResolved]
}

/// The ordered rule list, as a value a caller can inspect or extend.
pub fn rule_list() -> (rs: Vec<ValidationRule>)
    ensures
        rs@ == rule_list_spec(),
{
    let mut rs: Vec<ValidationRule> = Vec::new();
    rs.push(ValidationRule::OriginExists);
    rs.push(ValidationRule::CoreAnchorsResolved);
    proof {
        assert(rs@ =~= rule_list_spec());
    }
    rs
}

/// Runs one rule against a world.
pub fn apply_rule(rule: ValidationRule, world: &World) -> (r: Result<(), ValidationError>)
    ensures
        match r {
            Ok(u) => rule_check(rule, world.deep_view()) is None,
            Err(e) => rule_check(rule, world.deep_view()) == Some(e.deep_view()),
        },
{
    match rule {
        ValidationRule::OriginExists => validate_origin_exists(world),
        ValidationRule::CoreAnchorsResolved => validate_core_events(world),
    }
}

/// The `OriginExists` rule: a world must have exactly one origin.
fn validate_origin_exists(world: &World) -> (r: Result<(), ValidationError>)
    ensures
        match r {
            Ok(u) => rule_check(ValidationRule::OriginExists, world.deep_view()) is None,
            Err(e) => rule_check(ValidationRule::OriginExists, world.deep_view()) == Some(
                e.deep_view(),
            ),
        },
{
    if world.origin.is_some() {
        Ok(())
    } else {
        Err(ValidationError::MissingOrigin)
    }
}

/// The `CoreAnchorsResolved` rule: every identifier listed under the
/// origin's core-anchor field must name a declared core event.
fn validate_core_events(world: &World) -> (r: Result<(), ValidationError>)
    ensures
        match r {
            Ok(u) => rule_check(ValidationRule::CoreAnchorsResolved, world.deep_view()) is None,
            Err(e) => rule_check(ValidationRule::CoreAnchorsResolved, world.deep_view()) == Some(
                e.deep_view(),
            ),
        },
{
    let origin = match &world.origin {
        Some(o) => o,
        None => {
            return Err(ValidationError::MissingOrigin);
        },
    };
    let key = "核心锚点".to_owned();
    match origin.fields.get(&key) {
        None => Ok(()),
        Some(anchors) => {
            match anchors {
                Value::List(elems) => {
                    let ghost ems = value_models(elems@);
                    proof {
                        lemma_value_models_pointwise(elems@);
                        assert(ems.subrange(0, ems.len() as int) =~= ems);
                    }
                    let n = elems.len();
                    let mut i: usize = 0;
                    while i < n
                        invariant
                            world.origin == Some(*origin),
                            origin.fields.deep_view().contains_key(anchors_key()),
                            origin.fields.deep_view()[anchors_key()] == ValueModel::List(ems),
                            n == elems@.len(),
                            i <= n,
                            ems == value_models(elems@),
                            ems.len() == n,
                            forall|j: int| 0 <= j < n ==> ems[j] == value_model(elems@[j]),
                            anchors_check(ems, world.deep_view().core_events) == anchors_check(
                                ems.subrange(i as int, n as int),
                                world.deep_view().core_events,
                            ),
                        decreases n - i,
                    {
                        let ghost sfx = ems.subrange(i as int, n as int);
                        proof {
                            assert(sfx[0] == ems[i as int]);
                            assert(sfx.drop_first() =~= ems.subrange(i as int + 1, n as int));
                        }
                        match &elems[i] {
                            Value::Identifier(name) => {
                                if !world.core_events.contains_key(name) {
                                    return Err(
                                        ValidationError::UnresolvedReference {
                                            rule: ValidationRule::CoreAnchorsResolved,
                                            name: name.clone(),
                                        },
                                    );
                                }
                            },
                            _ => {
                                return Err(
                                    ValidationError::TypeMismatch(
                                        TypeMismatchKind::AnchorsNotIdentifiers,
                                    ),
                                );
                            },
                        }
                        i += 1;
                    }
                    proof {
                        assert(ems.subrange(n as int, n as int) =~= Seq::<ValueModel>::empty());
                    }
                    Ok(())
                },
                _ => Err(ValidationError::TypeMismatch(TypeMismatchKind::AnchorsNotList)),
            }
        },
    }
}

/// Every element of an anchor list that `CoreAnchorsResolved` lets
/// through is an identifier with a matching core event.
proof fn lemma_anchors_check_none(elems: Seq<ValueModel>, core_events: Map<Seq<char>, RecordModel>)
    requires
        anchors_check(elems, core_events) is None,
    ensures
        forall|j: int|
            0 <= j < elems.len() ==> (#[trigger] elems[j]) is Ident && core_events.contains_key(
                elems[j]->Ident_0,
            ),
    decreases elems.len(),
{
    if elems.len() != 0 {
        lemma_anchors_check_none(elems.drop_first(), core_events);
        assert forall|j: int|
            0 <= j < elems.len() implies (#[trigger] elems[j]) is Ident
            && core_events.contains_key(elems[j]->Ident_0) by {
            if j > 0 {
                assert(elems.drop_first()[j - 1] == elems[j]);
            }
        }
    }
}

/// Referential integrity of the core anchors: in any world that passes
/// `CoreAnchorsResolved` and whose origin carries a core-anchor list,
/// every listed element is an identifier whose text is a key of the
/// world's core-event collection.
pub proof fn lemma_anchors_resolved(w: WorldModel, o: RecordModel, elems: Seq<ValueModel>)
    requires
        rule_check(ValidationRule::CoreAnchorsResolved, w) is None,
        w.origin == Some(o),
        o.fields.contains_key(anchors_key()),
        o.fields[anchors_key()] == ValueModel::List(elems),
    ensures
        forall|j: int|
            0 <= j < elems.len() ==> (#[trigger] elems[j]) is Ident && w.core_events.contains_key(
                elems[j]->Ident_0,
            ),
{
    lemma_anchors_check_none(elems, w.core_events);
}

/// The same integrity, stated of a whole validation pass: a world on
/// which no rule of the list fails resolves every listed core anchor.
pub proof fn lemma_validated_anchors_resolved(
    w: WorldModel,
    o: RecordModel,
    elems: Seq<ValueModel>,
)
    requires
        first_failure(rule_list_spec(), w) is None,
        w.origin == Some(o),
        o.fields.contains_key(anchors_key()),
        o.fields[anchors_key()] == ValueModel::List(elems),
    ensures
        forall|j: int|
            0 <= j < elems.len() ==> (#[trigger] elems[j]) is Ident && w.core_events.contains_key(
                elems[j]->Ident_0,
            ),
{
    let rules = rule_list_spec();
    assert(rules[0] == ValidationRule::OriginExists);
    assert(rules.drop_first().len() == 1);
    assert(rules.drop_first()[0] == ValidationRule::CoreAnchorsResolved);
    assert(first_failure(rules, w) == first_failure(rules.drop_first(), w));
    if rule_check(ValidationRule::CoreAnchorsResolved, w) is Some {
        assert(first_failure(rules.drop_first(), w) is Some);
    }
    lemma_anchors_resolved(w, o, elems);
}

/// Validates a world against the rule list, in order, returning the
/// first failing rule's error.
pub fn validate_world(world: &World) -> (r: Result<(), ValidationError>)
    ensures
        match r {
            Ok(u) => first_failure(rule_list_spec(), world.deep_view()) is None,
            Err(e) => first_failure(rule_list_spec(), world.deep_view()) == Some(e.deep_view()),
        },
{
    let rules = rule_list();
    let n = rules.len();
    let mut i: usize = 0;
    proof {
        assert(rule_list_spec().subrange(0, n as int) =~= rule_list_spec());
    }
    while i < n
        invariant
            n == rule_list_spec().len(),
            rules@ == rule_list_spec(),
            i <= n,
            first_failure(rule_list_spec(), world.deep_view()) == first_failure(
                rule_list_spec().subrange(i as int, n as int),
                world.deep_view(),
            ),
        decreases n - i,
    {
        let ghost sfx = rule_list_spec().subrange(i as int, n as int);
        proof {
            assert(sfx[0] == rule_list_spec()[i as int]);
            assert(sfx.drop_first() =~= rule_list_spec().subrange(i as int + 1, n as int));
        }
        match apply_rule(rules[i], world) {
            Ok(u) => {
            },
            Err(e) => {
                return Err(e);
            },
        }
        i += 1;
    }
    proof {
        assert(rule_list_spec().subrange(n as int, n as int) =~= Seq::<ValidationRule>::empty());
    }
    Ok(())
}

} // verus!
