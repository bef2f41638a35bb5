//! The description of a scripted installer: its steps, the groups of each
//! step, the plugins of each group and the files that a plugin installs.

use vstd::prelude::*;
use vstd::string::StringExecFns;
use crate::error::ToryggError;
use crate::vdf::push_char;

verus! {

/// How many plugins of a group may be chosen.
#[derive(Clone, Copy, Debug, PartialEq, Eq, Structural)]
pub enum GroupType {
    SelectExactlyOne,
    SelectAny,
    SelectAll,
}

/// The group type that `s` names, if it names one.
pub open spec fn group_type_of(s: Seq<char>) -> Option<GroupType> {
    if s == "SelectExactlyOne"@ {
        Some(GroupType::SelectExactlyOne)
    } else if s == "SelectAny"@ {
        Some(GroupType::SelectAny)
    } else if s == "SelectAll"@ {
        Some(GroupType::SelectAll)
    } else {
        None
    }
}

impl GroupType {
    /// Reads a group type from its name as the installer's description
    /// writes it.
    pub fn from_name(s: &str) -> (r: Option<GroupType>)
        ensures
            r == group_type_of(s@),
    {
        let name = s.to_owned();
        if name == String::from_str("SelectExactlyOne") {
            Some(GroupType::SelectExactlyOne)
        } else if name == String::from_str("SelectAny") {
            Some(GroupType::SelectAny)
        } else if name == String::from_str("SelectAll") {
            Some(GroupType::SelectAll)
        } else {
            None
        }
    }
}

/// A file or a folder that a plugin installs: where it lies in the archive and
/// where it goes below the mod's directory.
#[derive(Debug)]
pub enum FileOrFolder {
    File { source: Vec<String>, destination: Vec<String> },
    Folder { source: Vec<String>, destination: Vec<String> },
}

/// A file or folder, with its paths as sequences.
pub enum ItemView {
    File { source: Seq<Seq<char>>, destination: Seq<Seq<char>> },
    Folder { source: Seq<Seq<char>>, destination: Seq<Seq<char>> },
}

impl DeepView for FileOrFolder {
    type V = ItemView;

    open spec fn deep_view(&self) -> ItemView {
        match self {
            FileOrFolder::File { source, destination } => ItemView::File {
                source: source.deep_view(),
                destination: destination.deep_view(),
            },
            FileOrFolder::Folder { source, destination } => ItemView::Folder {
                source: source.deep_view(),
                destination: destination.deep_view(),
            },
        }
    }
}

/// One choice of the installer.
#[derive(Debug)]
pub struct Plugin {
    name: String,
    description: Option<String>,
    files: Option<Vec<FileOrFolder>>,
}

/// What a plugin is.
pub struct PluginView {
    pub name: Seq<char>,
    pub description: Option<Seq<char>>,
    pub files: Option<Seq<ItemView>>,
}

impl DeepView for Plugin {
    type V = PluginView;

    closed spec fn deep_view(&self) -> PluginView {
        PluginView {
            name: self.name@,
            description: match self.description {
                Some(d) => Some(d@),
                None => None,
            },
            files: match self.files {
                Some(f) => Some(f.deep_view()),
                None => None,
            },
        }
    }
}

impl Plugin {
    /// A plugin without description and without files.
    pub fn new(name: String) -> (r: Self)
        ensures
            r.deep_view() == (PluginView { name: name@, description: None, files: None }),
    {
        Self { name, description: None, files: None }
    }

    pub fn set_description(&mut self, desc: String)
        ensures
            final(self).deep_view() == (PluginView {
                description: Some(desc@),
                ..old(self).deep_view()
            }),
    {
        self.description = Some(desc);
    }

    /// Adds a file or folder behind those that the plugin has.
    pub fn push_file(&mut self, file: FileOrFolder)
        ensures
            final(self).deep_view() == (PluginView {
                files: Some(
                    match old(self).deep_view().files {
                        Some(f) => f.push(file.deep_view()),
                        None => seq![file.deep_view()],
                    },
                ),
                ..old(self).deep_view()
            }),
    {
        let mut files: Vec<FileOrFolder> = match self.files.take() {
            Some(f) => f,
            None => Vec::new(),
        };
        let ghost before = files.deep_view();
        files.push(file);
        assert(files.deep_view() =~= before.push(file.deep_view()));
        assert(old(self).deep_view().files is None ==> before.push(file.deep_view())
            =~= seq![file.deep_view()]);
        self.files = Some(files);
    }

    #[must_use]
    pub fn name(&self) -> (r: &str)
        ensures
            r@ == self.deep_view().name,
    {
        self.name.as_str()
    }

    #[must_use]
    pub fn description(&self) -> (r: Option<&String>)
        ensures
            r is Some == self.deep_view().description is Some,
            r is Some ==> r->0@ == self.deep_view().description->0,
    {
        self.description.as_ref()
    }

    #[must_use]
    pub fn files(&self) -> (r: Option<&Vec<FileOrFolder>>)
        ensures
            r is Some == self.deep_view().files is Some,
            r is Some ==> r->0.deep_view() == self.deep_view().files->0,
    {
        self.files.as_ref()
    }
}

/// A group of plugins to choose among.
#[derive(Debug)]
pub struct FileGroup {
    name: String,
    group_type: GroupType,
    plugins: Vec<Plugin>,
}

/// What a group is.
pub struct GroupView {
    pub name: Seq<char>,
    pub group_type: GroupType,
    pub plugins: Seq<PluginView>,
}

impl DeepView for FileGroup {
    type V = GroupView;

    closed spec fn deep_view(&self) -> GroupView {
        GroupView {
            name: self.name@,
            group_type: self.group_type,
            plugins: self.plugins.deep_view(),
        }
    }
}

impl FileGroup {
    /// A group without plugins.
    pub fn new(name: String, group_type: GroupType) -> (r: Self)
        ensures
            r.deep_view() == (GroupView { name: name@, group_type, plugins: Seq::empty() }),
    {
        let r = Self { name, group_type, plugins: Vec::new() };
        assert(r.plugins.deep_view() =~= Seq::<PluginView>::empty());
        r
    }

    /// Adds a plugin behind those that the group has.
    pub fn push(&mut self, plugin: Plugin)
        ensures
            final(self).deep_view() == (GroupView {
                plugins: old(self).deep_view().plugins.push(plugin.deep_view()),
                ..old(self).deep_view()
            }),
    {
        let ghost before = self.plugins.deep_view();
        self.plugins.push(plugin);
        assert(self.plugins.deep_view() =~= before.push(plugin.deep_view()));
    }

    #[must_use]
    pub fn name(&self) -> (r: &str)
        ensures
            r@ == self.deep_view().name,
    {
        self.name.as_str()
    }

    #[must_use]
    pub fn group_type(&self) -> (r: &GroupType)
        ensures
            *r == self.deep_view().group_type,
    {
        &self.group_type
    }

    #[must_use]
    pub fn plugins(&self) -> (r: &Vec<Plugin>)
        ensures
            r.deep_view() == self.deep_view().plugins,
    {
        &self.plugins
    }
}

/// One step of the installer: a page of groups.
#[derive(Debug)]
pub struct InstallStep {
    name: String,
    file_groups: Option<Vec<FileGroup>>,
}

/// What a step is.
pub struct StepView {
    pub name: Seq<char>,
    pub file_groups: Option<Seq<GroupView>>,
}

impl DeepView for InstallStep {
    type V = StepView;

    closed spec fn deep_view(&self) -> StepView {
        StepView {
            name: self.name@,
            file_groups: match self.file_groups {
                Some(g) => Some(g.deep_view()),
                None => None,
            },
        }
    }
}

impl InstallStep {
    /// A step without groups.
    pub fn with_name(name: String) -> (r: Self)
        ensures
            r.deep_view() == (StepView { name: name@, file_groups: None }),
    {
        Self { name, file_groups: None }
    }

    /// Adds a group behind those that the step has.
    pub fn add_file_group(&mut self, group: FileGroup)
        ensures
            final(self).deep_view() == (StepView {
                file_groups: Some(
                    match old(self).deep_view().file_groups {
                        Some(g) => g.push(group.deep_view()),
                        None => seq![group.deep_view()],
                    },
                ),
                ..old(self).deep_view()
            }),
    {
        let mut groups: Vec<FileGroup> = match self.file_groups.take() {
            Some(g) => g,
            None => Vec::new(),
        };
        let ghost before = groups.deep_view();
        groups.push(group);
        assert(groups.deep_view() =~= before.push(group.deep_view()));
        assert(old(self).deep_view().file_groups is None ==> before.push(group.deep_view())
            =~= seq![group.deep_view()]);
        self.file_groups = Some(groups);
    }

    pub fn name(&self) -> (r: &str)
        ensures
            r@ == self.deep_view().name,
    {
        self.name.as_str()
    }

    pub fn file_groups(&self) -> (r: Option<&Vec<FileGroup>>)
        ensures
            r is Some == self.deep_view().file_groups is Some,
            r is Some ==> r->0.deep_view() == self.deep_view().file_groups->0,
    {
        self.file_groups.as_ref()
    }
}

/// One event of a markup text: an element opens, with the values of its
/// attributes in their order; an element closes; text stands between them.
#[derive(Debug)]
pub enum MarkupEvent {
    Start { name: String, values: Vec<String> },
    End { name: String },
    Characters(String),
    Other,
}

/// An event, with its strings as sequences.
pub enum EventView {
    Start { name: Seq<char>, values: Seq<Seq<char>> },
    End { name: Seq<char> },
    Characters(Seq<char>),
    Other,
}

impl DeepView for MarkupEvent {
    type V = EventView;

    open spec fn deep_view(&self) -> EventView {
        match self {
            MarkupEvent::Start { name, values } => EventView::Start {
                name: name@,
                values: values.deep_view(),
            },
            MarkupEvent::End { name } => EventView::End { name: name@ },
            MarkupEvent::Characters(c) => EventView::Characters(c@),
            MarkupEvent::Other => EventView::Other,
        }
    }
}

/// The events that the XML reader of the `xml` crate gives for a text, up to
/// the end of the document; none where it reports an error.
pub uninterp spec fn markup_of(text: Seq<char>) -> Option<Seq<EventView>>;

/// The events of `r`, if there are any.
pub open spec fn events_view(r: Option<Vec<MarkupEvent>>) -> Option<Seq<EventView>> {
    match r {
        Some(ev) => Some(ev.deep_view()),
        None => None,
    }
}

/// Runs `xml::EventReader` over the text and hands its events on: the name
/// of an element as the reader prints it, the values of the attributes in
/// document order, character data as it is. An event of another kind is
/// handed on without its content. What the reader makes of a text depends on
/// the text alone.
#[verifier::external_body]
fn read_markup(text: &str) -> (r: Option<Vec<MarkupEvent>>)
    ensures
        events_view(r) == markup_of(text@),
{
    let mut out = Vec::new();
    for event in xml::EventReader::from_str(text) {
        out.push(match event {
            Ok(xml::reader::XmlEvent::StartElement { name, attributes, .. }) => MarkupEvent::Start {
                name: name.to_string(),
                values: attributes.into_iter().map(|a| a.value).collect(),
            },
            Ok(xml::reader::XmlEvent::EndElement { name }) => MarkupEvent::End { name: name.to_string() },
            Ok(xml::reader::XmlEvent::Characters(chars)) => MarkupEvent::Characters(chars),
            Ok(_) => MarkupEvent::Other,
            Err(_) => return None,
        });
    }
    Some(out)
}

/// A Windows path as `typed_path` writes it in Unix form; none where the
/// result is not valid UTF-8.
pub uninterp spec fn unix_form(windows: Seq<char>) -> Option<Seq<char>>;

/// The string of `r`, if there is one.
pub open spec fn text_view(r: Option<String>) -> Option<Seq<char>> {
    match r {
        Some(s) => Some(s@),
        None => None,
    }
}

/// Reads `windows` as a Windows path with `typed_path::WindowsPath` and
/// converts it with `with_unix_encoding`, which rebuilds the path component
/// by component with `/` as separator. The result depends on the path alone.
#[verifier::external_body]
fn to_unix_form(windows: &str) -> (r: Option<String>)
    ensures
        text_view(r) == unix_form(windows@),
{
    typed_path::WindowsPath::new(windows).with_unix_encoding().to_str().map(|s| s.to_owned())
}

/// The components of the first `k` characters of a path written with `/`:
/// those that are complete, and the one that is being read.
pub open spec fn split_upto(s: Seq<char>, k: int) -> (Seq<Seq<char>>, Seq<char>)
    decreases k,
{
    if k <= 0 || k > s.len() {
        (Seq::empty(), Seq::empty())
    } else {
        let (done, cur) = split_upto(s, k - 1);
        if s[k - 1] != '/' {
            (done, cur.push(s[k - 1]))
        } else if cur.len() > 0 {
            (done.push(cur), Seq::empty())
        } else {
            (done, cur)
        }
    }
}

/// The components of a path written with `/`: the runs of other characters.
pub open spec fn components_of(s: Seq<char>) -> Seq<Seq<char>> {
    let (done, cur) = split_upto(s, s.len() as int);
    if cur.len() > 0 {
        done.push(cur)
    } else {
        done
    }
}

/// Splits a path written with `/` into its components.
pub fn split_path(s: &str) -> (r: Vec<String>)
    ensures
        r.deep_view() == components_of(s@),
{
    let mut done: Vec<String> = Vec::new();
    let mut cur = String::new();
    let ghost chars = s@;
    assert(done.deep_view() =~= Seq::<Seq<char>>::empty());
    for c in iter: s.chars()
        invariant
            iter.seq() == chars,
            split_upto(chars, iter.index() as int) == (done.deep_view(), cur@),
    {
        let ghost before = done.deep_view();
        if c != '/' {
            push_char(&mut cur, c);
        } else if cur.as_str().unicode_len() > 0 {
            done.push(cur);
            assert(done.deep_view() =~= before.push(cur@));
            cur = String::new();
        }
    }
    if cur.as_str().unicode_len() > 0 {
        let ghost before = done.deep_view();
        done.push(cur);
        assert(done.deep_view() =~= before.push(cur@));
    }
    done
}

/// Where the reading of an installer's description stands: the steps that
/// are complete, and the step, group and plugin that are open.
pub struct Reading {
    pub steps: Seq<StepView>,
    pub step: Option<StepView>,
    pub group: Option<GroupView>,
    pub plugin: Option<PluginView>,
    pub is_desc: bool,
}

/// The state before the first event.
pub open spec fn reading_start() -> Reading {
    Reading { steps: Seq::empty(), step: None, group: None, plugin: None, is_desc: false }
}

/// A plugin with one more file or folder.
pub open spec fn with_item(p: PluginView, item: ItemView) -> PluginView {
    PluginView {
        files: Some(
            match p.files {
                Some(f) => f.push(item),
                None => seq![item],
            },
        ),
        ..p
    }
}

/// A step with one more group.
pub open spec fn with_group(s: StepView, g: GroupView) -> StepView {
    StepView {
        file_groups: Some(
            match s.file_groups {
                Some(f) => f.push(g),
                None => seq![g],
            },
        ),
        ..s
    }
}

/// The source and destination of a `file` or `folder` element: its first two
/// attribute values, read as Windows paths.
pub open spec fn item_paths(values: Seq<Seq<char>>) -> Option<(Seq<Seq<char>>, Seq<Seq<char>>)> {
    if values.len() < 2 || unix_form(values[0]) is None || unix_form(values[1]) is None {
        None
    } else {
        Some((components_of(unix_form(values[0])->0), components_of(unix_form(values[1])->0)))
    }
}

/// The state after an element has opened; none where the description is
/// malformed.
pub open spec fn on_start(s: Reading, name: Seq<char>, values: Seq<Seq<char>>) -> Option<Reading> {
    if name == "installStep"@ {
        if values.len() < 1 {
            None
        } else {
            Some(Reading { step: Some(StepView { name: values[0], file_groups: None }), ..s })
        }
    } else if name == "group"@ {
        if values.len() < 2 || group_type_of(values[1]) is None {
            None
        } else {
            Some(
                Reading {
                    group: Some(
                        GroupView {
                            name: values[0],
                            group_type: group_type_of(values[1])->0,
                            plugins: Seq::empty(),
                        },
                    ),
                    ..s
                },
            )
        }
    } else if name == "plugin"@ {
        if values.len() < 1 {
            None
        } else {
            Some(
                Reading {
                    plugin: Some(PluginView { name: values[0], description: None, files: None }),
                    ..s
                },
            )
        }
    } else if name == "description"@ {
        Some(Reading { is_desc: true, ..s })
    } else if name == "file"@ {
        match (s.plugin, item_paths(values)) {
            (Some(p), Some((source, destination))) => Some(
                Reading { plugin: Some(with_item(p, ItemView::File { source, destination })), ..s },
            ),
            _ => None,
        }
    } else if name == "folder"@ {
        match (s.plugin, item_paths(values)) {
            (Some(p), Some((source, destination))) => Some(
                Reading {
                    plugin: Some(with_item(p, ItemView::Folder { source, destination })),
                    ..s
                },
            ),
            _ => None,
        }
    } else {
        Some(s)
    }
}

/// The state after an element has closed; none where nothing is open that
/// it could close into.
pub open spec fn on_end(s: Reading, name: Seq<char>) -> Option<Reading> {
    if name == "installStep"@ {
        match s.step {
            Some(step) => Some(Reading { steps: s.steps.push(step), step: None, ..s }),
            None => None,
        }
    } else if name == "group"@ {
        match (s.step, s.group) {
            (Some(step), Some(g)) => Some(Reading { step: Some(with_group(step, g)), group: None, ..s }),
            _ => None,
        }
    } else if name == "plugin"@ {
        match (s.group, s.plugin) {
            (Some(g), Some(p)) => Some(
                Reading {
                    group: Some(GroupView { plugins: g.plugins.push(p), ..g }),
                    plugin: None,
                    ..s
                },
            ),
            _ => None,
        }
    } else if name == "description"@ {
        Some(Reading { is_desc: false, ..s })
    } else {
        Some(s)
    }
}

/// The state after one more event.
pub open spec fn on_event(s: Reading, e: EventView) -> Option<Reading> {
    match e {
        EventView::Start { name, values } => on_start(s, name, values),
        EventView::End { name } => on_end(s, name),
        EventView::Characters(c) => if !s.is_desc {
            Some(s)
        } else {
            match s.plugin {
                Some(p) => Some(Reading { plugin: Some(PluginView { description: Some(c), ..p }), ..s }),
                None => None,
            }
        },
        EventView::Other => Some(s),
    }
}

/// The state after the first `k` events.
pub open spec fn read_upto(events: Seq<EventView>, k: int) -> Option<Reading>
    decreases k,
{
    if k <= 0 || k > events.len() {
        Some(reading_start())
    } else {
        match read_upto(events, k - 1) {
            Some(s) => on_event(s, events[k - 1]),
            None => None,
        }
    }
}

/// The steps that the events describe: each `installStep` element with its
/// groups, each group with its plugins, each plugin with its description and
/// its files, all in document order.
pub open spec fn steps_of(events: Seq<EventView>) -> Option<Seq<StepView>> {
    match read_upto(events, events.len() as int) {
        Some(s) => Some(s.steps),
        None => None,
    }
}

fn named(name: &String, literal: &str) -> (r: bool)
    ensures
        r == (name@ == literal@),
{
    *name == literal.to_owned()
}

/// The view of what may be there.
pub open spec fn maybe<T: DeepView>(o: Option<T>) -> Option<T::V> {
    match o {
        Some(t) => Some(t.deep_view()),
        None => None,
    }
}

fn malformed<T>() -> (r: Result<T, ToryggError>)
    ensures
        r is Err,
        r->Err_0 is Other,
        r->Err_0->Other_0@ == "malformed installer description"@,
{
    Err(ToryggError::Other("malformed installer description".to_owned()))
}

/// The file or folder that an element names.
pub open spec fn item_of(values: Seq<Seq<char>>, folder: bool) -> Option<ItemView> {
    match item_paths(values) {
        Some((source, destination)) => Some(
            if folder {
                ItemView::Folder { source, destination }
            } else {
                ItemView::File { source, destination }
            },
        ),
        None => None,
    }
}

fn read_item(values: &Vec<String>, folder: bool) -> (r: Option<FileOrFolder>)
    ensures
        maybe(r) == item_of(values.deep_view(), folder),
{
    assert(values.deep_view().len() == values.len());
    if values.len() < 2 {
        return None;
    }
    assert(values.deep_view()[0] == values@[0]@);
    assert(values.deep_view()[1] == values@[1]@);
    let source = match to_unix_form(values[0].as_str()) {
        Some(s) => s,
        None => {
            return None;
        },
    };
    let destination = match to_unix_form(values[1].as_str()) {
        Some(s) => s,
        None => {
            return None;
        },
    };
    let source = split_path(source.as_str());
    let destination = split_path(destination.as_str());
    if folder {
        Some(FileOrFolder::Folder { source, destination })
    } else {
        Some(FileOrFolder::File { source, destination })
    }
}

/// Builds the steps of an installer from the events of its description.
/// A description in which an element closes, or a file is named, where
/// nothing is open to take it, or in which an attribute is missing or names
/// no group type, is malformed.
pub fn install_steps(events: &Vec<MarkupEvent>) -> (r: Result<Vec<InstallStep>, ToryggError>)
    ensures
        match steps_of(events.deep_view()) {
            Some(steps) => r is Ok && r->Ok_0.deep_view() == steps,
            None => r is Err && r->Err_0 is Other && r->Err_0->Other_0@
                == "malformed installer description"@,
        },
{
    let mut install_steps: Vec<InstallStep> = Vec::new();
    let mut step: Option<InstallStep> = None;
    let mut group: Option<FileGroup> = None;
    let mut plugin: Option<Plugin> = None;
    let mut is_desc = false;
    let ghost evs = events.deep_view();
    assert(install_steps.deep_view() =~= Seq::<StepView>::empty());
    let mut k: usize = 0;
    while k < events.len()
        invariant
            0 <= k <= events.len(),
            evs == events.deep_view(),
            read_upto(evs, k as int) == Some(
                Reading {
                    steps: install_steps.deep_view(),
                    step: maybe(step),
                    group: maybe(group),
                    plugin: maybe(plugin),
                    is_desc,
                },
            ),
        decreases events.len() - k,
    {
        let ghost before = read_upto(evs, k as int)->0;
        assert(evs[k as int] == events@[k as int].deep_view());
        assert(read_upto(evs, k + 1) == on_event(before, evs[k as int]));
        let ghost next = on_event(before, evs[k as int]);
        proof {
            if next is None {
                lemma_stays_malformed(evs, k + 1, evs.len() as int);
            }
        }
        match &events[k] {
            MarkupEvent::Start { name, values } => {
                assert(values.deep_view().len() == values.len());
                if named(name, "installStep") {
                    if values.len() < 1 {
                        return malformed();
                    }
                    assert(values.deep_view()[0] == values@[0]@);
                    step = Some(InstallStep::with_name(values[0].clone()));
                } else if named(name, "group") {
                    if values.len() < 2 {
                        return malformed();
                    }
                    assert(values.deep_view()[0] == values@[0]@);
                    assert(values.deep_view()[1] == values@[1]@);
                    match GroupType::from_name(values[1].as_str()) {
                        Some(t) => {
                            group = Some(FileGroup::new(values[0].clone(), t));
                        },
                        None => {
                            return malformed();
                        },
                    }
                } else if named(name, "plugin") {
                    if values.len() < 1 {
                        return malformed();
                    }
                    assert(values.deep_view()[0] == values@[0]@);
                    plugin = Some(Plugin::new(values[0].clone()));
                } else if named(name, "description") {
                    is_desc = true;
                } else if named(name, "file") {
                    match (plugin.take(), read_item(values, false)) {
                        (Some(mut p), Some(item)) => {
                            p.push_file(item);
                            plugin = Some(p);
                        },
                        _ => {
                            return malformed();
                        },
                    }
                } else if named(name, "folder") {
                    match (plugin.take(), read_item(values, true)) {
                        (Some(mut p), Some(item)) => {
                            p.push_file(item);
                            plugin = Some(p);
                        },
                        _ => {
                            return malformed();
                        },
                    }
                }
            },
            MarkupEvent::End { name } => {
                if named(name, "installStep") {
                    match step.take() {
                        Some(s) => {
                            let ghost done = install_steps.deep_view();
                            install_steps.push(s);
                            assert(install_steps.deep_view() =~= done.push(s.deep_view()));
                        },
                        None => {
                            return malformed();
                        },
                    }
                } else if named(name, "group") {
                    match (step.take(), group.take()) {
                        (Some(mut s), Some(g)) => {
                            s.add_file_group(g);
                            step = Some(s);
                        },
                        _ => {
                            return malformed();
                        },
                    }
                } else if named(name, "plugin") {
                    match (group.take(), plugin.take()) {
                        (Some(mut g), Some(p)) => {
                            g.push(p);
                            group = Some(g);
                        },
                        _ => {
                            return malformed();
                        },
                    }
                } else if named(name, "description") {
                    is_desc = false;
                }
            },
            MarkupEvent::Characters(chars) => {
                if is_desc {
                    match plugin.take() {
                        Some(mut p) => {
                            p.set_description(chars.clone());
                            plugin = Some(p);
                        },
                        None => {
                            return malformed();
                        },
                    }
                }
            },
            MarkupEvent::Other => {},
        }
        k += 1;
    }
    Ok(install_steps)
}

/// Once a description is malformed it stays so.
pub proof fn lemma_stays_malformed(events: Seq<EventView>, j: int, k: int)
    requires
        0 <= j <= k <= events.len(),
        read_upto(events, j) is None,
    ensures
        read_upto(events, k) is None,
    decreases k - j,
{
    if j < k {
        lemma_stays_malformed(events, j, k - 1);
    }
}

/// Reads the description of an installer and builds its steps.
pub fn get_install_steps(module_config: &str) -> (r: Result<Vec<InstallStep>, ToryggError>)
    ensures
        match markup_of(module_config@) {
            Some(events) => match steps_of(events) {
                Some(steps) => r is Ok && r->Ok_0.deep_view() == steps,
                None => r is Err && r->Err_0 is Other && r->Err_0->Other_0@
                    == "malformed installer description"@,
            },
            None => r is Err && r->Err_0 is Other && r->Err_0->Other_0@ == "parser error"@,
        },
{
    match read_markup(module_config) {
        Some(events) => install_steps(&events),
        None => Err(ToryggError::Other("parser error".to_owned())),
    }
}

} // verus!
