//! Pipelines, and how they are read from a pipeline file.

use crate::document::{
    all_texts, distinct_sections, field_named, field_option_view, field_views, find_field,
    item_views, parse_sections, section_views, sections, texts, Field, FieldView, Fields,
    Section, SectionView,
};
use crate::text::views;
use vstd::prelude::*;

verus! {

/// A named list of commands, run in order, with an optional condition on
/// which the whole list runs.
#[derive(Debug)]
pub struct Pipeline {
    pub name: String,
    pub commands: Vec<String>,
    pub when: Option<String>,
}

/// What a pipeline holds.
pub struct PipelineView {
    pub name: Seq<char>,
    pub commands: Seq<Seq<char>>,
    pub when: Option<Seq<char>>,
}

impl View for Pipeline {
    type V = PipelineView;

    open spec fn view(&self) -> PipelineView {
        PipelineView {
            name: self.name@,
            commands: views(self.commands@),
            when: match self.when {
                Some(test) => Some(test@),
                None => None,
            },
        }
    }
}

/// What a list of pipelines holds.
pub open spec fn pipeline_views(pipelines: Seq<Pipeline>) -> Seq<PipelineView> {
    Seq::new(pipelines.len(), |i: int| pipelines[i]@)
}

/// Why a text defines no pipelines.
#[derive(Clone, Copy, Debug, PartialEq, Eq, Structural)]
pub enum DefinitionError {
    /// The text is no TOML document.
    Syntax,
    /// A section has no list of texts under `commands`.
    Commands,
    /// A section has something else than a text under `when`.
    When,
}

/// The commands of a section: what stands under `commands`, which has to be
/// a list of texts.
pub open spec fn commands_in(field: Option<FieldView>) -> Result<Seq<Seq<char>>, DefinitionError> {
    match field {
        Some(FieldView::List(items)) => if all_texts(items) {
            Ok(texts(items))
        } else {
            Err(DefinitionError::Commands)
        },
        _ => Err(DefinitionError::Commands),
    }
}

/// The condition of a section: what stands under `when`, which has to be a
/// text where it is there.
pub open spec fn condition_in(field: Option<FieldView>) -> Result<
    Option<Seq<char>>,
    DefinitionError,
> {
    match field {
        None => Ok(None),
        Some(FieldView::Text(test)) => Ok(Some(test)),
        Some(_) => Err(DefinitionError::When),
    }
}

/// The pipeline that a table defines under a name.
pub open spec fn pipeline_in(name: Seq<char>, fields: Fields) -> Result<
    PipelineView,
    DefinitionError,
> {
    match commands_in(field_named(fields, "commands"@)) {
        Err(error) => Err(error),
        Ok(commands) => match condition_in(field_named(fields, "when"@)) {
            Err(error) => Err(error),
            Ok(when) => Ok(PipelineView { name, commands, when }),
        },
    }
}

/// The pipelines that the sections define, in their order: one for each
/// section that is a table. The first section that defines none decides the
/// error.
pub open spec fn pipelines_in(sections: Seq<SectionView>) -> Result<
    Seq<PipelineView>,
    DefinitionError,
>
    decreases sections.len(),
{
    if sections.len() == 0 {
        Ok(Seq::empty())
    } else {
        match pipelines_in(sections.drop_last()) {
            Err(error) => Err(error),
            Ok(pipelines) => match sections.last().fields {
                None => Ok(pipelines),
                Some(fields) => match pipeline_in(sections.last().name, fields) {
                    Err(error) => Err(error),
                    Ok(pipeline) => Ok(pipelines.push(pipeline)),
                },
            },
        }
    }
}

/// The pipelines that a text defines.
pub open spec fn defined(text: Seq<char>) -> Result<Seq<PipelineView>, DefinitionError> {
    match sections(text) {
        None => Err(DefinitionError::Syntax),
        Some(sections) => pipelines_in(sections),
    }
}

/// What a result holds.
pub open spec fn definition_view(result: Result<Vec<Pipeline>, DefinitionError>) -> Result<
    Seq<PipelineView>,
    DefinitionError,
> {
    match result {
        Ok(pipelines) => Ok(pipeline_views(pipelines@)),
        Err(error) => Err(error),
    }
}

/// The commands of a section, from what stands under `commands`.
fn read_commands(field: Option<&Field>) -> (commands: Result<Vec<String>, DefinitionError>)
    ensures
        match commands {
            Ok(commands) => commands_in(field_option_view(field)) == Ok::<
                Seq<Seq<char>>,
                DefinitionError,
            >(views(commands@)),
            Err(error) => commands_in(field_option_view(field)) == Err::<
                Seq<Seq<char>>,
                DefinitionError,
            >(error),
        },
{
    match field {
        Some(Field::List(items)) => {
            let ghost listed = item_views(items@);
            let mut commands: Vec<String> = Vec::new();
            let mut at: usize = 0;
            while at < items.len()
                invariant
                    at <= items.len(),
                    listed == item_views(items@),
                    field_option_view(field) == Some(FieldView::List(listed)),
                    commands@.len() == at,
                    forall|i: int| 0 <= i < at ==> (#[trigger] listed[i]) == Some(commands@[i]@),
                decreases items.len() - at,
            {
                match &items[at] {
                    Some(text) => commands.push(text.clone()),
                    None => {
                        assert(listed[at as int] is None);
                        assert(!all_texts(listed));
                        return Err(DefinitionError::Commands);
                    },
                }
                at = at + 1;
            }
            assert(views(commands@) =~= texts(listed));
            Ok(commands)
        },
        _ => Err(DefinitionError::Commands),
    }
}

/// The pipeline that a table defines under a name.
fn read_pipeline(name: &String, fields: &Vec<(String, Field)>) -> (pipeline: Result<
    Pipeline,
    DefinitionError,
>)
    ensures
        match pipeline {
            Ok(pipeline) => pipeline_in(name@, field_views(fields@)) == Ok::<
                PipelineView,
                DefinitionError,
            >(pipeline@),
            Err(error) => pipeline_in(name@, field_views(fields@)) == Err::<
                PipelineView,
                DefinitionError,
            >(error),
        },
{
    let commands = match read_commands(find_field(fields, "commands")) {
        Ok(commands) => commands,
        Err(error) => {
            return Err(error);
        },
    };
    let when = match find_field(fields, "when") {
        None => None,
        Some(Field::Text(test)) => Some(test.clone()),
        Some(_) => {
            return Err(DefinitionError::When);
        },
    };
    Ok(Pipeline { name: name.clone(), commands, when })
}

/// The pipelines that the sections of a file define, in the order of the
/// file. An entry that is no table defines nothing and is passed over.
pub fn pipelines_of(sections: &Vec<Section>) -> (pipelines: Result<Vec<Pipeline>, DefinitionError>)
    ensures
        definition_view(pipelines) == pipelines_in(section_views(sections@)),
{
    let ghost all = section_views(sections@);
    let mut pipelines: Vec<Pipeline> = Vec::new();
    let mut at: usize = 0;
    assert(all.take(0) =~= Seq::<SectionView>::empty());
    assert(pipeline_views(pipelines@) =~= Seq::<PipelineView>::empty());
    while at < sections.len()
        invariant
            at <= sections.len(),
            all == section_views(sections@),
            pipelines_in(all.take(at as int)) == Ok::<Seq<PipelineView>, DefinitionError>(
                pipeline_views(pipelines@),
            ),
        decreases sections.len() - at,
    {
        let ghost before = pipeline_views(pipelines@);
        assert(all.take(at + 1).drop_last() =~= all.take(at as int));
        assert(all.take(at + 1).last() == sections@[at as int]@);
        if let Some(fields) = &sections[at].fields {
            match read_pipeline(&sections[at].name, fields) {
                Ok(pipeline) => {
                    pipelines.push(pipeline);
                    assert(pipeline_views(pipelines@) =~= before.push(pipeline@));
                },
                Err(error) => {
                    proof {
                        lemma_error_stays(all, at + 1);
                    }
                    return Err(error);
                },
            }
        }
        at = at + 1;
    }
    assert(all.take(at as int) =~= all);
    Ok(pipelines)
}

/// An error among the first sections is the error of them all.
proof fn lemma_error_stays(sections: Seq<SectionView>, upto: int)
    requires
        0 <= upto <= sections.len(),
        pipelines_in(sections.take(upto)) is Err,
    ensures
        pipelines_in(sections) == pipelines_in(sections.take(upto)),
    decreases sections.len() - upto,
{
    if upto < sections.len() {
        assert(sections.take(upto + 1).drop_last() =~= sections.take(upto));
        lemma_error_stays(sections, upto + 1);
    } else {
        assert(sections.take(upto) =~= sections);
    }
}

/// Whether no two pipelines have the same name.
pub open spec fn distinct_pipelines(pipelines: Seq<PipelineView>) -> bool {
    forall|i: int, j: int|
        0 <= i < j < pipelines.len() ==> (#[trigger] pipelines[i]).name != (
        #[trigger] pipelines[j]).name
}

/// The pipelines that sections define have the names of sections, and where
/// no two sections have the same name, no two pipelines have.
pub proof fn lemma_pipeline_names(sections: Seq<SectionView>)
    requires
        distinct_sections(sections),
    ensures
        match pipelines_in(sections) {
            Ok(pipelines) => {
                &&& distinct_pipelines(pipelines)
                &&& forall|k: int|
                    0 <= k < pipelines.len() ==> exists|i: int|
                        0 <= i < sections.len() && (#[trigger] sections[i]).name == (
                        #[trigger] pipelines[k]).name
            },
            Err(_) => true,
        },
    decreases sections.len(),
{
    if sections.len() > 0 {
        let earlier = sections.drop_last();
        let last = sections.len() - 1;
        assert forall|i: int, j: int| 0 <= i < j < earlier.len() implies (#[trigger] earlier[i]).name
            != (#[trigger] earlier[j]).name by {
            assert(earlier[i] == sections[i] && earlier[j] == sections[j]);
        }
        lemma_pipeline_names(earlier);
        match pipelines_in(sections) {
            Ok(pipelines) => {
                let before = pipelines_in(earlier)->Ok_0;
                assert forall|k: int| 0 <= k < pipelines.len() implies exists|i: int|
                    0 <= i < sections.len() && (#[trigger] sections[i]).name == (
                    #[trigger] pipelines[k]).name by {
                    if k < before.len() {
                        assert(pipelines[k] == before[k]);
                        let i = choose|i: int|
                            0 <= i < earlier.len() && (#[trigger] earlier[i]).name == before[k].name;
                        assert(sections[i] == earlier[i]);
                    } else {
                        assert(sections[last].name == pipelines[k].name);
                    }
                }
                assert forall|k: int, l: int| 0 <= k < l < pipelines.len() implies (
                #[trigger] pipelines[k]).name != (#[trigger] pipelines[l]).name by {
                    assert(pipelines[k] == before[k]);
                    if l < before.len() {
                        assert(pipelines[l] == before[l]);
                    } else {
                        let i = choose|i: int|
                            0 <= i < earlier.len() && (#[trigger] earlier[i]).name == before[k].name;
                        assert(sections[i] == earlier[i]);
                        assert(sections[i].name != sections[last].name);
                    }
                }
            },
            Err(_) => {},
        }
    }
}

/// Reads the pipelines from the text of a pipeline file: each table at the
/// top of the file defines one, under the table's name, with the list of
/// texts under `commands` as its commands and the text under `when`, if
/// there is one, as its condition. The pipelines come in the order of the
/// file, and no two of them have the same name.
pub fn load_pipeline(contents: &str) -> (pipelines: Result<Vec<Pipeline>, DefinitionError>)
    ensures
        definition_view(pipelines) == defined(contents@),
        match pipelines {
            Ok(pipelines) => distinct_pipelines(pipeline_views(pipelines@)),
            Err(_) => true,
        },
{
    match parse_sections(contents) {
        Some(sections) => {
            proof {
                lemma_pipeline_names(section_views(sections@));
            }
            pipelines_of(&sections)
        },
        None => Err(DefinitionError::Syntax),
    }
}

} // verus!
