//! Making a node ready: rendering what it holds against its own context, and
//! taking in the files and the rendered templates that it brings along.

use vstd::prelude::*;
use vstd::string::StrSliceExecFns;
use crate::context::{augmented, augmented_all, context_datum, context_tree, name_context,
    name_datum, node_context};
use crate::datum::{Datum, Tree};
use crate::duplicate::Duplicate;
use crate::engine::{render_str, rendered};
use crate::file::{DuneFile, FileView};
use crate::interface::{Interface, InterfaceView};
use crate::node::{Node, NodeView};
use crate::pinned::{expanded_pinned, rendered_or, rendered_or_kept, Pinned, PinnedView};
use crate::strmap::{has_key, lemma_deep_keys, lemma_deep_lookup, lookup, Entries, StrMap};

verus! {

/// A bound file with its source path rendered against `context`; a path that
/// does not render is kept as it is.
pub open spec fn expanded_bind(b: FileView, context: Tree) -> FileView {
    FileView { src: rendered_or_kept(b.src, context), ..b }
}

/// A node with the commands of its processes and the source paths of its
/// bound files rendered against `context`.
pub open spec fn expanded_node(node: NodeView, context: Tree) -> NodeView {
    NodeView {
        pinned: match node.pinned {
            Some(list) => Some(Seq::new(list.len(), |i: int| expanded_pinned(list[i], context))),
            None => None,
        },
        binds: match node.binds {
            Some(list) => Some(Seq::new(list.len(), |i: int| expanded_bind(list[i], context))),
            None => None,
        },
        ..node
    }
}

/// What a node needs from outside to be loaded: the files at `sources`, read,
/// and the templates named in `templates`, each rendered against `context`.
#[derive(Debug, Clone, PartialEq, Eq)]
pub struct LoadRequest {
    pub sources: Vec<String>,
    pub templates: Vec<String>,
    pub context: Datum,
}

/// The mathematical form of a [`LoadRequest`].
pub struct LoadRequestView {
    pub sources: Seq<Seq<char>>,
    pub templates: Seq<Seq<char>>,
    pub context: Tree,
}

impl DeepView for LoadRequest {
    type V = LoadRequestView;

    open spec fn deep_view(&self) -> LoadRequestView {
        LoadRequestView {
            sources: self.sources.deep_view(),
            templates: self.templates.deep_view(),
            context: self.context@,
        }
    }
}

impl View for LoadRequest {
    type V = LoadRequestView;

    open spec fn view(&self) -> LoadRequestView {
        self.deep_view()
    }
}

/// What a node needs to be loaded: the sources of its bound files, the names
/// of its templates, and the context that the templates see, in which every
/// interface is augmented.
pub open spec fn load_request(node: NodeView) -> LoadRequestView {
    LoadRequestView {
        sources: match node.binds {
            Some(list) => Seq::new(list.len(), |i: int| list[i].src),
            None => Seq::empty(),
        },
        templates: match node.templates {
            Some(map) => Seq::new(map.len(), |i: int| map[i].0),
            None => Seq::empty(),
        },
        context: context_tree(
            node.name,
            augmented_all(node.interfaces),
            node._additional_fields,
        ),
    }
}

/// A bound file once read: it holds what `reads` has for its source; a file
/// that `reads` has nothing for stays as it was.
pub open spec fn loaded_bind(b: FileView, reads: Entries<Seq<u8>>) -> FileView {
    FileView {
        content: match lookup(reads, b.src) {
            Some(bytes) => Some(bytes),
            None => b.content,
        },
        ..b
    }
}

/// One of the templates was found: `outcomes` has an entry for it.
pub open spec fn retrieved(
    templates: Entries<Seq<char>>,
    outcomes: Entries<Option<Seq<char>>>,
) -> bool {
    exists|k: int| 0 <= k < templates.len() && has_key(outcomes, (#[trigger] templates[k]).0)
}

/// The file that a template becomes, given what was found of it and what
/// its path rendered to: it goes where the path says and holds the text in
/// UTF-8. A template that was not found or did not render, or whose path did
/// not render, gives no file.
pub open spec fn file_given(
    template: Seq<char>,
    outcome: Option<Option<Seq<char>>>,
    dst: Option<Seq<char>>,
) -> Option<FileView> {
    match (outcome, dst) {
        (Some(Some(text)), Some(dst)) => Some(
            FileView {
                src: template,
                dst: dst,
                content: Some(vstd::utf8::encode_utf8(text)),
                executable: false,
            },
        ),
        _ => None,
    }
}

/// The file that a rendered template becomes: that of [`file_given`], for
/// what `outcomes` holds for the template and for its path rendered with the
/// node's name.
pub open spec fn rendered_file(
    template: Seq<char>,
    path: Seq<char>,
    outcomes: Entries<Option<Seq<char>>>,
    name: Option<Seq<char>>,
) -> Option<FileView> {
    file_given(template, lookup(outcomes, template), rendered(path, name_context(name)))
}

/// The files that the templates become, in the order of the templates.
pub open spec fn rendered_files(
    templates: Entries<Seq<char>>,
    outcomes: Entries<Option<Seq<char>>>,
    name: Option<Seq<char>>,
) -> Seq<FileView>
    decreases templates.len(),
{
    if templates.len() == 0 {
        Seq::empty()
    } else {
        let before = rendered_files(templates.drop_last(), outcomes, name);
        match rendered_file(templates.last().0, templates.last().1, outcomes, name) {
            Some(file) => before.push(file),
            None => before,
        }
    }
}

/// A node once loaded. Its bound files hold what was read for them. Where it
/// has templates, it holds the files that they became; and if one of them
/// was found at all, its interfaces are augmented.
pub open spec fn loaded(
    node: NodeView,
    reads: Entries<Seq<u8>>,
    outcomes: Entries<Option<Seq<char>>>,
) -> NodeView {
    let binds = match node.binds {
        Some(list) => Some(Seq::new(list.len(), |i: int| loaded_bind(list[i], reads))),
        None => None,
    };
    match node.templates {
        Some(templates) => if templates.len() > 0 {
            NodeView {
                binds: binds,
                interfaces: if retrieved(templates, outcomes) {
                    augmented_all(node.interfaces)
                } else {
                    node.interfaces
                },
                tmpls: Some(rendered_files(templates, outcomes, node.name)),
                ..node
            }
        } else {
            NodeView { binds: binds, ..node }
        },
        None => NodeView { binds: binds, ..node },
    }
}

/// The files of `files` that hold something, in order.
pub open spec fn with_payload(files: Seq<FileView>) -> Seq<FileView>
    decreases files.len(),
{
    if files.len() == 0 {
        Seq::empty()
    } else if files.last().content is Some {
        with_payload(files.drop_last()).push(files.last())
    } else {
        with_payload(files.drop_last())
    }
}

/// The files that a node writes out: its bound files, then its rendered
/// templates; those that hold nothing are left out.
pub open spec fn files_to_write(node: NodeView) -> Seq<FileView> {
    let binds = match node.binds {
        Some(list) => list,
        None => Seq::empty(),
    };
    let tmpls = match node.tmpls {
        Some(list) => list,
        None => Seq::empty(),
    };
    with_payload(binds) + with_payload(tmpls)
}

/// Augments every interface of the map.
pub fn augment_all(interfaces: &mut Option<StrMap<Interface>>)
    ensures
        final(interfaces).deep_view() == augmented_all(old(interfaces).deep_view()),
{
    let mut held: Option<StrMap<Interface>> = None;
    core::mem::swap(interfaces, &mut held);
    match held {
        Some(mut map) => {
            let ghost before = map.deep_view();
            let n = map.len();
            let mut i: usize = 0;
            while i < n
                invariant
                    i <= n,
                    n == map@.len(),
                    n == before.len(),
                    forall|j: int| 0 <= j < n ==> (#[trigger] map@[j]).0 == before[j].0,
                    forall|j: int| 0 <= j < i ==> (#[trigger] map@[j]).1@ == augmented(before[j].1),
                    forall|j: int| i <= j < n ==> (#[trigger] map@[j]).1@ == before[j].1,
                decreases n - i,
            {
                let mut iface = map.swap_value_at(i, Interface::default());
                iface.augment();
                map.swap_value_at(i, iface);
                i += 1;
            }
            assert(map.deep_view() =~= augmented_all(Some(before))->0);
            *interfaces = Some(map);
        },
        None => {},
    }
}

/// The files of `files` that hold something, copied.
pub fn payloads(files: &Vec<DuneFile>) -> (r: Vec<DuneFile>)
    ensures
        r.deep_view() == with_payload(files.deep_view()),
{
    let mut out: Vec<DuneFile> = Vec::new();
    let mut i: usize = 0;
    assert(files.deep_view().take(0) =~= Seq::<FileView>::empty());
    assert(out.deep_view() =~= Seq::<FileView>::empty());
    while i < files.len()
        invariant
            i <= files.len(),
            out.deep_view() == with_payload(files.deep_view().take(i as int)),
        decreases files.len() - i,
    {
        let ghost before = out.deep_view();
        proof {
            let upto = files.deep_view().take(i + 1);
            assert(upto.drop_last() =~= files.deep_view().take(i as int));
            assert(upto.last() == files@[i as int]@);
        }
        if files[i].content.is_some() {
            let copy = files[i].duplicate();
            out.push(copy);
            assert(out.deep_view() =~= before.push(copy@));
        }
        i += 1;
    }
    assert(files.deep_view().take(i as int) =~= files.deep_view());
    out
}

impl Node {
    /// Renders the commands of the node's processes and the source paths of
    /// its bound files against `context`. What does not render is dropped,
    /// where it is a hook, and kept as it is, where it is a command or a path.
    pub fn expand(&mut self, context: &Datum)
        ensures
            final(self)@ == expanded_node(old(self)@, context@),
    {
        let mut pinned: Option<Vec<Pinned>> = None;
        core::mem::swap(&mut self.pinned, &mut pinned);
        match pinned {
            Some(mut list) => {
                let ghost before = list.deep_view();
                let mut i: usize = 0;
                while i < list.len()
                    invariant
                        i <= list.len(),
                        list@.len() == before.len(),
                        forall|j: int|
                            0 <= j < i ==> (#[trigger] list@[j])@ == expanded_pinned(
                                before[j],
                                context@,
                            ),
                        forall|j: int| i <= j < list@.len() ==> (#[trigger] list@[j])@ == before[j],
                    decreases list.len() - i,
                {
                    list[i].expand(context);
                    i += 1;
                }
                assert(list.deep_view() =~= Seq::new(
                    before.len(),
                    |i: int| expanded_pinned(before[i], context@),
                ));
                self.pinned = Some(list);
            },
            None => {},
        }
        let mut binds: Option<Vec<DuneFile>> = None;
        core::mem::swap(&mut self.binds, &mut binds);
        match binds {
            Some(mut list) => {
                let ghost before = list.deep_view();
                let mut i: usize = 0;
                while i < list.len()
                    invariant
                        i <= list.len(),
                        list@.len() == before.len(),
                        forall|j: int|
                            0 <= j < i ==> (#[trigger] list@[j])@ == expanded_bind(
                                before[j],
                                context@,
                            ),
                        forall|j: int| i <= j < list@.len() ==> (#[trigger] list@[j])@ == before[j],
                    decreases list.len() - i,
                {
                    let mut src = String::new();
                    core::mem::swap(&mut list[i].src, &mut src);
                    list[i].src = rendered_or(render_str(src.as_str(), context), src);
                    i += 1;
                }
                assert(list.deep_view() =~= Seq::new(
                    before.len(),
                    |i: int| expanded_bind(before[i], context@),
                ));
                self.binds = Some(list);
            },
            None => {},
        }
    }

    /// Renders what the node holds against the node's own context, and says
    /// what is to be fetched before the node can be loaded.
    pub fn configure(&mut self) -> (r: LoadRequest)
        ensures
            final(self)@ == expanded_node(old(self)@, node_context(old(self)@)),
            r@ == load_request(final(self)@),
    {
        let context = self.context();
        self.expand(&context);
        let mut sources: Vec<String> = Vec::new();
        match &self.binds {
            Some(list) => {
                let mut i: usize = 0;
                while i < list.len()
                    invariant
                        i <= list.len(),
                        sources@.len() == i,
                        forall|j: int| 0 <= j < i ==> (#[trigger] sources@[j])@ == list@[j].src@,
                    decreases list.len() - i,
                {
                    sources.push(list[i].src.clone());
                    i += 1;
                }
            },
            None => {},
        }
        assert(sources.deep_view() =~= load_request(self@).sources);
        let mut templates: Vec<String> = Vec::new();
        match &self.templates {
            Some(map) => {
                let n = map.len();
                let mut i: usize = 0;
                while i < n
                    invariant
                        i <= n,
                        n == map@.len(),
                        templates@.len() == i,
                        forall|j: int| 0 <= j < i ==> (#[trigger] templates@[j])@ == map@[j].0,
                    decreases n - i,
                {
                    templates.push(map.key_at(i).clone());
                    i += 1;
                }
            },
            None => {},
        }
        assert(templates.deep_view() =~= load_request(self@).templates);
        let mut interfaces = self.interfaces.duplicate();
        augment_all(&mut interfaces);
        let context = context_datum(&self.name, &interfaces, &self._additional_fields);
        LoadRequest { sources, templates, context }
    }

    /// Takes in what was fetched for the node: `reads` holds what was read at
    /// each source that could be read; `outcomes` holds, for each template
    /// that was found, the text it rendered to, or nothing where rendering
    /// failed.
    pub fn load(&mut self, reads: &StrMap<Vec<u8>>, outcomes: &StrMap<Option<String>>)
        ensures
            final(self)@ == loaded(old(self)@, reads.deep_view(), outcomes.deep_view()),
    {
        let ghost start = self@;
        let mut binds: Option<Vec<DuneFile>> = None;
        core::mem::swap(&mut self.binds, &mut binds);
        match binds {
            Some(mut list) => {
                let ghost before = list.deep_view();
                let mut i: usize = 0;
                while i < list.len()
                    invariant
                        i <= list.len(),
                        list@.len() == before.len(),
                        forall|j: int|
                            0 <= j < i ==> (#[trigger] list@[j])@ == loaded_bind(
                                before[j],
                                reads.deep_view(),
                            ),
                        forall|j: int| i <= j < list@.len() ==> (#[trigger] list@[j])@ == before[j],
                    decreases list.len() - i,
                {
                    let read = match reads.get(list[i].src.as_str()) {
                        Some(bytes) => {
                            let copy = bytes.duplicate();
                            assert(copy@ =~= copy.deep_view());
                            assert(bytes@ =~= bytes.deep_view());
                            Some(copy)
                        },
                        None => None,
                    };
                    proof {
                        lemma_deep_lookup(reads@, list@[i as int].src@);
                    }
                    list[i].load(read);
                    i += 1;
                }
                assert(list.deep_view() =~= Seq::new(
                    before.len(),
                    |i: int| loaded_bind(before[i], reads.deep_view()),
                ));
                self.binds = Some(list);
            },
            None => {},
        }
        let (tmpls, found) = match &self.templates {
            Some(templates) => {
                if templates.len() > 0 {
                    let (files, found) = render_files(templates, outcomes, &self.name);
                    (Some(files), found)
                } else {
                    (None, false)
                }
            },
            None => (None, false),
        };
        match tmpls {
            Some(files) => {
                if found {
                    augment_all(&mut self.interfaces);
                }
                self.tmpls = Some(files);
            },
            None => {},
        }
    }

    /// The files to write out for the node: its bound files, then its rendered
    /// templates; those that hold nothing are left out.
    pub fn dump_files(&self) -> (r: Vec<DuneFile>)
        ensures
            r.deep_view() == files_to_write(self@),
    {
        let mut out: Vec<DuneFile> = match &self.binds {
            Some(list) => payloads(list),
            None => Vec::new(),
        };
        let ghost first = out.deep_view();
        match &self.tmpls {
            Some(list) => {
                let more = payloads(list);
                let mut i: usize = 0;
                assert(out.deep_view() =~= first + more.deep_view().take(0));
                while i < more.len()
                    invariant
                        i <= more.len(),
                        out.deep_view() == first + more.deep_view().take(i as int),
                    decreases more.len() - i,
                {
                    let ghost before = out.deep_view();
                    let copy = more[i].duplicate();
                    out.push(copy);
                    assert(out.deep_view() =~= before.push(copy@));
                    assert(out.deep_view() =~= first + more.deep_view().take(i + 1));
                    i += 1;
                }
                assert(more.deep_view().take(i as int) =~= more.deep_view());
            },
            None => {
                assert(out.deep_view() =~= first + Seq::<FileView>::empty());
            },
        }
        out
    }

    /// The namespace to create for the node: one of the node's name, where it
    /// has a name.
    pub fn init(&self) -> (r: Option<String>)
        ensures
            r.deep_view() == self@.name,
    {
        self.name.duplicate()
    }
}

/// The file that the template `template` becomes, given what was found of it
/// and what its path rendered to.
pub fn file_from(template: &String, outcome: Option<&Option<String>>, dst: Option<String>) -> (r:
    Option<DuneFile>)
    ensures
        r.deep_view() == file_given(template@, outcome.deep_view(), dst.deep_view()),
{
    match (outcome, dst) {
        (Some(Some(text)), Some(dst)) => {
            let content = text.as_str().as_bytes_vec();
            assert(content.deep_view() =~= content@);
            Some(DuneFile { src: template.clone(), dst, content: Some(content), executable: false })
        },
        _ => None,
    }
}

/// The files that the templates become, and whether one of the templates was
/// found at all.
#[verifier::rlimit(30)]
pub fn render_files(
    templates: &StrMap<String>,
    outcomes: &StrMap<Option<String>>,
    name: &Option<String>,
) -> (r: (Vec<DuneFile>, bool))
    ensures
        r.0.deep_view() == rendered_files(
            templates.deep_view(),
            outcomes.deep_view(),
            name.deep_view(),
        ),
        r.1 == retrieved(templates.deep_view(), outcomes.deep_view()),
{
    let ghost all = templates.deep_view();
    let ghost got = outcomes.deep_view();
    let context = name_datum(name);
    let n = templates.len();
    let mut files: Vec<DuneFile> = Vec::new();
    let mut found = false;
    let mut i: usize = 0;
    assert(all.take(0) =~= Seq::<(Seq<char>, Seq<char>)>::empty());
    assert(files.deep_view() =~= Seq::<FileView>::empty());
    while i < n
        invariant
            i <= n,
            n == templates@.len(),
            all == templates.deep_view(),
            got == outcomes.deep_view(),
            context@ == name_context(name.deep_view()),
            files.deep_view() == rendered_files(all.take(i as int), got, name.deep_view()),
            found == exists|k: int| 0 <= k < i && has_key(got, (#[trigger] all[k]).0),
        decreases n - i,
    {
        let ghost before = files.deep_view();
        let template = templates.key_at(i);
        let path = templates.value_at(i);
        let outcome = outcomes.get(template.as_str());
        proof {
            let upto = all.take(i + 1);
            assert(upto.drop_last() =~= all.take(i as int));
            assert(upto.last() == (template@, path@));
            lemma_deep_lookup(outcomes@, template@);
            lemma_deep_keys(outcomes@);
        }
        if outcome.is_some() {
            found = true;
            assert(has_key(got, all[i as int].0));
        } else {
            assert(!has_key(got, all[i as int].0));
        }
        match file_from(template, outcome, render_str(path.as_str(), &context)) {
            Some(file) => {
                files.push(file);
                assert(files.deep_view() =~= before.push(file@));
            },
            None => {},
        }
        i += 1;
    }
    assert(all.take(i as int) =~= all);
    (files, found)
}

} // verus!
