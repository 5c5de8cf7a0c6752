//! Bringing the plugins that a project requires into its build descriptor.
//!
//! The descriptor is edited as text. A plugin whose coordinate string already
//! stands in the text is left alone. For any other, the build section and the
//! plugin list are created where they are missing, and the plugin's
//! declaration is put in before the end of the plugin list. Markers are found
//! by their first occurrence; nothing else of the descriptor is understood.

use crate::text::{
    chars_of, contains, find, first_occurrence, includes, insert_at, inserted, joined,
    lemma_contains_first, lemma_first_occurrence, lemma_joined_pieces, lemma_pieces_extend,
    lemma_pieces_plain, occurs_at, pieces, split, texts,
};
use vstd::prelude::*;
use vstd::string::*;

verus! {

/// Opens the build section.
pub const BUILD_OPEN: &'static str = "<build>";

/// Closes the build section.
pub const BUILD_CLOSE: &'static str = "</build>";

/// Opens the plugin list.
pub const PLUGINS_OPEN: &'static str = "<plugins>";

/// Closes the plugin list.
pub const PLUGINS_CLOSE: &'static str = "</plugins>";

/// Closes the descriptor's root.
pub const PROJECT_CLOSE: &'static str = "</project>";

/// A build section that holds an empty plugin list.
pub const BUILD_SECTION: &'static str =
    "\n    <build>\n        <plugins>\n        </plugins>\n    </build>\n";

/// An empty plugin list.
pub const PLUGINS_SECTION: &'static str = "\n        <plugins>\n        </plugins>\n";

/// A declaration up to the group.
pub const DECLARATION_HEAD: &'static str = "\n            <plugin>\n                <groupId>";

/// A declaration between the group and the artifact.
pub const DECLARATION_ARTIFACT: &'static str = "</groupId>\n                <artifactId>";

/// A declaration between the artifact and the version.
pub const DECLARATION_VERSION: &'static str = "</artifactId>\n                <version>";

/// A declaration after the version.
pub const DECLARATION_TAIL: &'static str = "</version>\n            </plugin>";

/// What separates the components of a coordinate string.
pub const COORDINATE_SEPARATOR: char = ':';

/// A structural marker of the descriptor.
#[derive(Clone, Copy, Debug, PartialEq, Eq, Structural)]
pub enum Marker {
    /// The end of the descriptor's root.
    ProjectClose,
    /// The end of the build section.
    BuildClose,
    /// The end of the plugin list.
    PluginsClose,
}

/// Why a plugin could not be brought in.
#[derive(Clone, Copy, Debug, PartialEq, Eq, Structural)]
pub enum SyncError {
    /// The coordinate string does not have three non-empty components.
    Input,
    /// A marker that the step needs does not stand in the descriptor.
    DocumentStructure(Marker),
}

/// The text of a marker.
pub open spec fn marker_text(marker: Marker) -> Seq<char> {
    match marker {
        Marker::ProjectClose => PROJECT_CLOSE@,
        Marker::BuildClose => BUILD_CLOSE@,
        Marker::PluginsClose => PLUGINS_CLOSE@,
    }
}

/// What is said of an error that `plugin` met.
pub open spec fn error_text(error: SyncError, plugin: Seq<char>) -> Seq<char> {
    match error {
        SyncError::Input => "Invalid plugin format: "@ + plugin,
        SyncError::DocumentStructure(marker) => "Could not find "@ + marker_text(marker)
            + " tag in pom.xml"@,
    }
}

impl Marker {
    /// The text of the marker, as it is looked for.
    pub fn text(self) -> (text: &'static str)
        ensures
            text@ == marker_text(self),
    {
        match self {
            Marker::ProjectClose => PROJECT_CLOSE,
            Marker::BuildClose => BUILD_CLOSE,
            Marker::PluginsClose => PLUGINS_CLOSE,
        }
    }
}

impl SyncError {
    /// What to say of this error, met by the plugin with the coordinate
    /// string `plugin`.
    pub fn message(self, plugin: &str) -> (message: String)
        ensures
            message@ == error_text(self, plugin@),
    {
        match self {
            SyncError::Input => {
                let mut message = "Invalid plugin format: ".to_owned();
                message.append(plugin);
                message
            },
            SyncError::DocumentStructure(marker) => {
                let mut message = "Could not find ".to_owned();
                message.append(marker.text());
                message.append(" tag in pom.xml");
                message
            },
        }
    }
}

/// The first plugin that could not be brought in, and why.
#[derive(Clone, Copy, Debug, PartialEq, Eq, Structural)]
pub struct SyncFailure {
    /// Its position in the list of required plugins.
    pub position: usize,
    pub error: SyncError,
}

/// The group, artifact and version that identify a build plugin.
#[derive(Debug, PartialEq, Eq)]
pub struct PluginCoordinate {
    pub group_id: String,
    pub artifact_id: String,
    pub version: String,
}

/// The components of a coordinate string: the three pieces between its
/// colons, where there are exactly three and none is empty.
pub open spec fn components(text: Seq<char>) -> Option<(Seq<char>, Seq<char>, Seq<char>)> {
    let parts = pieces(text, COORDINATE_SEPARATOR);
    if parts.len() == 3 && parts[0].len() > 0 && parts[1].len() > 0 && parts[2].len() > 0 {
        Some((parts[0], parts[1], parts[2]))
    } else {
        None
    }
}

/// A text that can be a component of a coordinate: not empty, no colon.
pub open spec fn is_component(text: Seq<char>) -> bool {
    text.len() > 0 && !text.contains(COORDINATE_SEPARATOR)
}

/// The coordinate string of these components.
pub open spec fn spelled(group: Seq<char>, artifact: Seq<char>, version: Seq<char>) -> Seq<char> {
    group + seq![COORDINATE_SEPARATOR] + artifact + seq![COORDINATE_SEPARATOR] + version
}

/// The declaration of the plugin with these components.
pub open spec fn declaration(group: Seq<char>, artifact: Seq<char>, version: Seq<char>) -> Seq<
    char,
> {
    DECLARATION_HEAD@ + group + DECLARATION_ARTIFACT@ + artifact + DECLARATION_VERSION@ + version
        + DECLARATION_TAIL@
}

impl View for PluginCoordinate {
    type V = (Seq<char>, Seq<char>, Seq<char>);

    open spec fn view(&self) -> (Seq<char>, Seq<char>, Seq<char>) {
        (self.group_id@, self.artifact_id@, self.version@)
    }
}

impl PluginCoordinate {
    /// Each component is there and holds no colon, so that the coordinate can
    /// be spelled and read again.
    pub open spec fn well_formed(&self) -> bool {
        &&& is_component(self.group_id@)
        &&& is_component(self.artifact_id@)
        &&& is_component(self.version@)
    }

    /// The coordinate that `text` spells, where it spells one.
    pub fn parse(text: &str) -> (r: Option<PluginCoordinate>)
        ensures
            match r {
                Some(coordinate) => components(text@) == Some(coordinate@)
                    && coordinate.well_formed(),
                None => components(text@) is None,
            },
    {
        proof {
            lemma_pieces_plain(text@, COORDINATE_SEPARATOR);
        }
        let parts = split(text, COORDINATE_SEPARATOR);
        if parts.len() != 3 {
            return None;
        }
        if parts[0].as_str().unicode_len() == 0 || parts[1].as_str().unicode_len() == 0
            || parts[2].as_str().unicode_len() == 0 {
            return None;
        }
        Some(
            PluginCoordinate {
                group_id: parts[0].clone(),
                artifact_id: parts[1].clone(),
                version: parts[2].clone(),
            },
        )
    }

    /// The coordinate string: the components with colons between them.
    pub fn spell(&self) -> (r: String)
        ensures
            r@ == spelled(self.group_id@, self.artifact_id@, self.version@),
    {
        proof {
            reveal_strlit(":");
        }
        let mut out = self.group_id.clone();
        out.append(":");
        out.append(self.artifact_id.as_str());
        out.append(":");
        out.append(self.version.as_str());
        out
    }

    /// The declaration of this plugin, as it is put into a descriptor.
    pub fn declaration(&self) -> (r: String)
        ensures
            r@ == declaration(self.group_id@, self.artifact_id@, self.version@),
    {
        let mut out = DECLARATION_HEAD.to_owned();
        out.append(self.group_id.as_str());
        out.append(DECLARATION_ARTIFACT);
        out.append(self.artifact_id.as_str());
        out.append(DECLARATION_VERSION);
        out.append(self.version.as_str());
        out.append(DECLARATION_TAIL);
        out
    }
}

/// A coordinate string that has components is spelled by them, and they are
/// well-formed.
pub proof fn lemma_components_spell(text: Seq<char>)
    requires
        components(text) is Some,
    ensures
        ({
            let (group, artifact, version) = components(text)->0;
            &&& is_component(group)
            &&& is_component(artifact)
            &&& is_component(version)
            &&& spelled(group, artifact, version) == text
        }),
{
    let parts = pieces(text, COORDINATE_SEPARATOR);
    lemma_pieces_plain(text, COORDINATE_SEPARATOR);
    lemma_joined_pieces(text, COORDINATE_SEPARATOR);
    let sep = seq![COORDINATE_SEPARATOR];
    let two = parts.drop_last();
    let one = two.drop_last();
    assert(joined(one.drop_last(), sep) =~= Seq::<char>::empty());
    assert(joined(one, sep) =~= parts[0]);
    assert(joined(two, sep) =~= parts[0] + sep + parts[1]);
}

/// Well-formed components are read back from the string that spells them.
pub proof fn lemma_components_of_spelled(
    group: Seq<char>,
    artifact: Seq<char>,
    version: Seq<char>,
)
    requires
        is_component(group),
        is_component(artifact),
        is_component(version),
    ensures
        components(spelled(group, artifact, version)) == Some((group, artifact, version)),
{
    let sep = COORDINATE_SEPARATOR;
    let none = Seq::<char>::empty();
    lemma_pieces_extend(none, group, sep);
    let first = group.push(sep);
    assert(first.drop_last() =~= group);
    lemma_pieces_extend(first, artifact, sep);
    let second = first + artifact;
    let third = second.push(sep);
    assert(third.drop_last() =~= second);
    lemma_pieces_extend(third, version, sep);
    assert(third + version =~= spelled(group, artifact, version));
}

/// The descriptor with the sections that a declaration needs: a build
/// section put in before the end of the root where there is none, or else a
/// plugin list put in before the end of the build section where there is
/// none, or else the descriptor as it is.
pub open spec fn with_sections(doc: Seq<char>) -> Result<Seq<char>, SyncError> {
    if !contains(doc, BUILD_OPEN@) {
        if contains(doc, PROJECT_CLOSE@) {
            Ok(inserted(doc, first_occurrence(doc, PROJECT_CLOSE@), BUILD_SECTION@))
        } else {
            Err(SyncError::DocumentStructure(Marker::ProjectClose))
        }
    } else if !contains(doc, PLUGINS_OPEN@) {
        if contains(doc, BUILD_CLOSE@) {
            Ok(inserted(doc, first_occurrence(doc, BUILD_CLOSE@), PLUGINS_SECTION@))
        } else {
            Err(SyncError::DocumentStructure(Marker::BuildClose))
        }
    } else {
        Ok(doc)
    }
}

/// The descriptor with `piece` put in before the end of its plugin list.
pub open spec fn with_declaration(doc: Seq<char>, piece: Seq<char>) -> Result<
    Seq<char>,
    SyncError,
> {
    if contains(doc, PLUGINS_CLOSE@) {
        Ok(inserted(doc, first_occurrence(doc, PLUGINS_CLOSE@), piece))
    } else {
        Err(SyncError::DocumentStructure(Marker::PluginsClose))
    }
}

/// What one required plugin makes of a descriptor. Where its coordinate
/// string stands in the text, nothing. Otherwise the string must spell a
/// coordinate, the sections are seen to, and the declaration goes in. An
/// error leaves no trace: it is found before anything is changed.
pub open spec fn sync_step(doc: Seq<char>, plugin: Seq<char>) -> Result<Seq<char>, SyncError> {
    if contains(doc, plugin) {
        Ok(doc)
    } else {
        match components(plugin) {
            None => Err(SyncError::Input),
            Some((group, artifact, version)) => match with_sections(doc) {
                Err(e) => Err(e),
                Ok(ready) => with_declaration(ready, declaration(group, artifact, version)),
            },
        }
    }
}

/// What the required plugins from position `from` on make of a descriptor,
/// one after the other: the text that is reached, and the first failure if
/// there is one. The plugins before a failure stay in.
pub open spec fn sync_from(doc: Seq<char>, required: Seq<Seq<char>>, from: int) -> (
    Seq<char>,
    Option<(int, SyncError)>,
)
    decreases required.len() - from,
{
    if from < 0 || from >= required.len() {
        (doc, None)
    } else {
        match sync_step(doc, required[from]) {
            Ok(next) => sync_from(next, required, from + 1),
            Err(e) => (doc, Some((from, e))),
        }
    }
}

/// What the required plugins make of a descriptor.
pub open spec fn synced(doc: Seq<char>, required: Seq<Seq<char>>) -> (
    Seq<char>,
    Option<(int, SyncError)>,
) {
    sync_from(doc, required, 0)
}

/// The text of a build descriptor.
#[derive(Debug, PartialEq, Eq)]
pub struct ManifestDocument {
    text: String,
}

impl View for ManifestDocument {
    type V = Seq<char>;

    closed spec fn view(&self) -> Seq<char> {
        self.text@
    }
}

impl ManifestDocument {
    /// The descriptor with this text.
    pub fn new(text: String) -> (doc: ManifestDocument)
        ensures
            doc@ == text@,
    {
        ManifestDocument { text }
    }

    /// The text of the descriptor.
    pub fn text(&self) -> (text: &str)
        ensures
            text@ == self@,
    {
        self.text.as_str()
    }

    /// The text of the descriptor, which is given up.
    pub fn into_text(self) -> (text: String)
        ensures
            text@ == self@,
    {
        self.text
    }

    /// Whether `piece` stands in the text.
    pub fn mentions(&self, piece: &str) -> (r: bool)
        ensures
            r == contains(self@, piece@),
    {
        let chars = chars_of(self.text.as_str());
        let wanted = chars_of(piece);
        includes(&chars, &wanted)
    }

    /// Sees to the sections that a declaration needs.
    fn ensure_sections(&mut self) -> (r: Result<(), SyncError>)
        ensures
            match with_sections(old(self)@) {
                Ok(ready) => r is Ok && final(self)@ == ready,
                Err(e) => r == Err::<(), SyncError>(e) && final(self)@ == old(self)@,
            },
    {
        let chars = chars_of(self.text.as_str());
        if !includes(&chars, &chars_of(BUILD_OPEN)) {
            match find(&chars, &chars_of(PROJECT_CLOSE)) {
                Some(at) => {
                    proof {
                        lemma_first_occurrence(self@, PROJECT_CLOSE@, at as int);
                    }
                    self.text = insert_at(self.text.as_str(), at, BUILD_SECTION);
                    Ok(())
                },
                None => Err(SyncError::DocumentStructure(Marker::ProjectClose)),
            }
        } else if !includes(&chars, &chars_of(PLUGINS_OPEN)) {
            match find(&chars, &chars_of(BUILD_CLOSE)) {
                Some(at) => {
                    proof {
                        lemma_first_occurrence(self@, BUILD_CLOSE@, at as int);
                    }
                    self.text = insert_at(self.text.as_str(), at, PLUGINS_SECTION);
                    Ok(())
                },
                None => Err(SyncError::DocumentStructure(Marker::BuildClose)),
            }
        } else {
            Ok(())
        }
    }

    /// Brings in one required plugin. On an error the descriptor is as it
    /// was.
    pub fn sync_plugin(&mut self, plugin: &str) -> (r: Result<(), SyncError>)
        ensures
            match sync_step(old(self)@, plugin@) {
                Ok(next) => r is Ok && final(self)@ == next,
                Err(e) => r == Err::<(), SyncError>(e) && final(self)@ == old(self)@,
            },
    {
        if self.mentions(plugin) {
            return Ok(());
        }
        let coordinate = match PluginCoordinate::parse(plugin) {
            Some(coordinate) => coordinate,
            None => {
                return Err(SyncError::Input);
            },
        };
        let mut ready = ManifestDocument { text: self.text.clone() };
        match ready.ensure_sections() {
            Ok(()) => {},
            Err(e) => {
                return Err(e);
            },
        }
        let chars = chars_of(ready.text.as_str());
        match find(&chars, &chars_of(PLUGINS_CLOSE)) {
            Some(at) => {
                proof {
                    lemma_first_occurrence(ready@, PLUGINS_CLOSE@, at as int);
                }
                self.text = insert_at(ready.text.as_str(), at, coordinate.declaration().as_str());
                Ok(())
            },
            None => Err(SyncError::DocumentStructure(Marker::PluginsClose)),
        }
    }

    /// Brings in the required plugins, in their order. It stops at the first
    /// that fails; those before it stay in.
    pub fn sync(&mut self, required: &Vec<String>) -> (r: Result<(), SyncFailure>)
        ensures
            final(self)@ == synced(old(self)@, texts(required@)).0,
            match r {
                Ok(()) => synced(old(self)@, texts(required@)).1 is None,
                Err(failure) => synced(old(self)@, texts(required@)).1 == Some(
                    (failure.position as int, failure.error),
                ),
            },
    {
        let mut i: usize = 0;
        while i < required.len()
            invariant
                i <= required.len(),
                synced(old(self)@, texts(required@)) == sync_from(
                    self@,
                    texts(required@),
                    i as int,
                ),
            decreases required.len() - i,
        {
            match self.sync_plugin(required[i].as_str()) {
                Ok(()) => {},
                Err(error) => {
                    return Err(SyncFailure { position: i, error });
                },
            }
            i += 1;
        }
        Ok(())
    }
}

/// A new build section up to the end of its plugin list, where a declaration
/// goes in.
pub const BUILD_SECTION_HEAD: &'static str = "\n    <build>\n        <plugins>\n        ";

/// A new build section from the end of its plugin list on.
pub const BUILD_SECTION_TAIL: &'static str = "</plugins>\n    </build>\n";

/// Where every required plugin already stands in the text, nothing is done.
pub proof fn lemma_sync_settled(doc: Seq<char>, required: Seq<Seq<char>>, from: int)
    requires
        0 <= from,
        forall|i: int| from <= i < required.len() ==> contains(doc, #[trigger] required[i]),
    ensures
        sync_from(doc, required, from) == (doc, None::<(int, SyncError)>),
    decreases required.len() - from,
{
    if from < required.len() {
        lemma_sync_settled(doc, required, from + 1);
    }
}

/// A second run changes nothing, where the first went through and left a
/// text in which every required coordinate string stands. A declaration does
/// not spell the coordinate string of its plugin: a plugin that was declared
/// is declared again by the next run, unless the text names it elsewhere.
pub proof fn lemma_sync_idempotent(doc: Seq<char>, required: Seq<Seq<char>>)
    requires
        synced(doc, required).1 is None,
        forall|i: int|
            0 <= i < required.len() ==> contains(synced(doc, required).0, #[trigger] required[i]),
    ensures
        synced(synced(doc, required).0, required) == synced(doc, required),
{
    lemma_sync_settled(synced(doc, required).0, required, 0);
}

/// A step never makes the text shorter, and one that brings a plugin in makes
/// it longer.
pub proof fn lemma_step_grows(doc: Seq<char>, plugin: Seq<char>)
    ensures
        sync_step(doc, plugin) matches Ok(next) ==> next.len() >= doc.len() && (!contains(
            doc,
            plugin,
        ) ==> next.len() > doc.len()),
{
    if !contains(doc, plugin) && components(plugin) is Some {
        if contains(doc, PROJECT_CLOSE@) {
            lemma_contains_first(doc, PROJECT_CLOSE@);
        }
        if contains(doc, BUILD_CLOSE@) {
            lemma_contains_first(doc, BUILD_CLOSE@);
        }
        if let Ok(ready) = with_sections(doc) {
            if contains(ready, PLUGINS_CLOSE@) {
                lemma_contains_first(ready, PLUGINS_CLOSE@);
                reveal_strlit("\n            <plugin>\n                <groupId>");
            }
        }
    }
}

/// A run never makes the text shorter.
pub proof fn lemma_sync_grows(doc: Seq<char>, required: Seq<Seq<char>>, from: int)
    ensures
        sync_from(doc, required, from).0.len() >= doc.len(),
    decreases required.len() - from,
{
    if 0 <= from < required.len() {
        lemma_step_grows(doc, required[from]);
        if let Ok(next) = sync_step(doc, required[from]) {
            lemma_sync_grows(next, required, from + 1);
        }
    }
}

/// Where a required coordinate string does not stand in the text, a run
/// does something: it changes the text or it fails. With
/// `lemma_sync_settled`: a run leaves the text alone and succeeds exactly
/// where every required coordinate string stands in it.
pub proof fn lemma_sync_acts(doc: Seq<char>, required: Seq<Seq<char>>, from: int, missing: int)
    requires
        0 <= from <= missing < required.len(),
        !contains(doc, required[missing]),
    ensures
        sync_from(doc, required, from) != (doc, None::<(int, SyncError)>),
    decreases required.len() - from,
{
    lemma_step_grows(doc, required[from]);
    if let Ok(next) = sync_step(doc, required[from]) {
        if contains(doc, required[from]) {
            lemma_sync_acts(doc, required, from + 1, missing);
        } else {
            lemma_sync_grows(next, required, from + 1);
        }
    }
}

/// A malformed coordinate at the head of the list, whose string does not
/// stand in the text, stops the run with an input error and the text as it
/// was.
pub proof fn lemma_sync_rejects_malformed(doc: Seq<char>, required: Seq<Seq<char>>)
    requires
        required.len() > 0,
        components(required[0]) is None,
        !contains(doc, required[0]),
    ensures
        synced(doc, required) == (doc, Some((0int, SyncError::Input))),
{
}

/// A descriptor without a build section gets, for one well-formed plugin
/// that it does not mention, one build section with one plugin list with one
/// declaration, directly before the end of its root. This supposes that no
/// end of a plugin list stands before the end of the root: the declaration
/// would go there.
pub proof fn lemma_sync_creates_sections(doc: Seq<char>, plugin: Seq<char>)
    requires
        !contains(doc, BUILD_OPEN@),
        contains(doc, PROJECT_CLOSE@),
        !contains(doc.take(first_occurrence(doc, PROJECT_CLOSE@)), PLUGINS_CLOSE@),
        components(plugin) is Some,
        !contains(doc, plugin),
    ensures
        ({
            let at = first_occurrence(doc, PROJECT_CLOSE@);
            let (group, artifact, version) = components(plugin)->0;
            let result = doc.take(at) + BUILD_SECTION_HEAD@ + declaration(group, artifact, version)
                + BUILD_SECTION_TAIL@ + doc.skip(at);
            &&& sync_step(doc, plugin) == Ok::<Seq<char>, SyncError>(result)
            &&& synced(doc, seq![plugin]) == (result, None::<(int, SyncError)>)
        }),
{
    let at = first_occurrence(doc, PROJECT_CLOSE@);
    let (group, artifact, version) = components(plugin)->0;
    let piece = declaration(group, artifact, version);
    lemma_contains_first(doc, PROJECT_CLOSE@);
    let ready = inserted(doc, at, BUILD_SECTION@);
    reveal_strlit("\n    <build>\n        <plugins>\n        </plugins>\n    </build>\n");
    reveal_strlit("\n    <build>\n        <plugins>\n        ");
    reveal_strlit("</plugins>\n    </build>\n");
    reveal_strlit("</plugins>");
    reveal_strlit("</project>");
    let head = BUILD_SECTION_HEAD@;
    let tail = BUILD_SECTION_TAIL@;
    let close = PLUGINS_CLOSE@;
    let mark = at + 39;
    assert(ready.subrange(mark, mark + 10) =~= close);
    assert forall|j: int| 0 <= j < mark implies !occurs_at(ready, close, j) by {
        if occurs_at(ready, close, j) {
            let found = ready.subrange(j, j + 10);
            if j + 10 <= at {
                // Wholly before the new section: it would stand before the
                // end of the root.
                assert(doc.take(at).subrange(j, j + 10) =~= found);
                assert(occurs_at(doc.take(at), close, j));
            } else if j < at {
                // Across the start of the new section, which is a line feed.
                assert(found[at - j] == ready[at]);
            } else {
                // In the head of the new section, where no `<` is followed
                // by `/`.
                assert(found[1] == ready[j + 1]);
            }
        }
    }
    lemma_first_occurrence(ready, close, mark);
    let result = doc.take(at) + head + piece + tail + doc.skip(at);
    assert(inserted(ready, mark, piece) =~= result);
    assert(sync_from(result, seq![plugin], 1) == (result, None::<(int, SyncError)>));
}

} // verus!
