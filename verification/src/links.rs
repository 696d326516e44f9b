//! The links of a page.
//!
//! What a document says can be read in more than one way where its cross-reference table is broken,
//! so that the functions that read it are stated as relations: the result is one that the reads can
//! lead to. Everything between the reads is a function.

use hayro::hayro_syntax::object::array::FlexArrayIter;
use hayro::hayro_syntax::object::{Array, Dict, Rect};
use hayro::hayro_syntax::Pdf;
use vstd::prelude::*;
use vstd::string::*;
use vstd::utf8::*;

use crate::parameters::readable;
use crate::pdf::{
    self, array_entry, array_items, catalog, device_rect, dict_entry, dict_id, name_entry,
    next_dict, next_string, next_value, number_entry, rect_entry, string_entry, DeviceRect,
    NamedValue, ObjectId,
};

verus! {

/// How many nodes of a name tree are searched.
pub const MAX_NAME_NODES: u32 = 1024;

/// The flags of an annotation that is not shown: hidden, or not for viewing.
pub const HIDDEN_FLAGS: u32 = 34;

/// Where a link leads.
#[derive(Debug)]
pub enum LinkDestination {
    Url(String),
    Page(usize),
}

/// Where a link leads.
#[verifier::ext_equal]
pub enum DestinationView {
    Url(Seq<char>),
    Page(int),
}

impl View for LinkDestination {
    type V = DestinationView;

    open spec fn view(&self) -> DestinationView {
        match self {
            LinkDestination::Url(url) => DestinationView::Url(url@),
            LinkDestination::Page(page) => DestinationView::Page(*page as int),
        }
    }
}

/// Whether two sequences of bytes are equal.
pub fn same_bytes(a: &[u8], b: &[u8]) -> (r: bool)
    ensures
        r == (a@ == b@),
{
    if a.len() != b.len() {
        return false;
    }
    let mut i: usize = 0;
    while i < a.len()
        invariant
            i <= a@.len(),
            a@.len() == b@.len(),
            forall|j: int| 0 <= j < i ==> a@[j] == b@[j],
        decreases a@.len() - i,
    {
        if a[i] != b[i] {
            return false;
        }
        i += 1;
    }
    proof {
        assert(a@ =~= b@);
    }
    true
}

/// Whether an annotation of this subtype and with these flags is a link that can be followed.
pub open spec fn visible_link(subtype: Option<Seq<u8>>, flags: Option<u32>) -> bool {
    &&& subtype == Some("Link".spec_bytes())
    &&& flags is Some ==> flags->0 & HIDDEN_FLAGS == 0
}

/// Tells whether an annotation of this subtype and with these flags is a link that can be followed.
pub fn is_visible_link(subtype: &Option<Vec<u8>>, flags: Option<u32>) -> (r: bool)
    ensures
        r == visible_link(pdf::bytes_of(*subtype), flags),
{
    match subtype {
        None => false,
        Some(subtype) => {
            same_bytes(subtype.as_slice(), "Link".as_bytes()) && match flags {
                None => true,
                Some(flags) => flags & HIDDEN_FLAGS == 0,
            }
        },
    }
}

/// What `String::from_utf8_lossy` makes of bytes.
pub uninterp spec fn lossy_text(bytes: Seq<u8>) -> Seq<char>;

/// The text that bytes encode, `String::from_utf8_lossy`. Where they are well-formed nothing is
/// lost.
#[verifier::external_body]
fn lossy(bytes: &[u8]) -> (r: String)
    ensures
        r@ == lossy_text(bytes@),
        valid_utf8(bytes@) ==> r@ == decode_utf8(bytes@),
{
    String::from_utf8_lossy(bytes).into_owned()
}

/// The value of a destination entry: an array that starts with a page, or a name or string under
/// which such an array is found.
pub struct DestinationEntry<A> {
    pub array: Option<A>,
    pub name: Option<Vec<u8>>,
    pub string: Option<Vec<u8>>,
}

/// What a destination entry is.
#[verifier::ext_equal]
pub struct EntryView<A> {
    pub array: Option<A>,
    pub name: Option<Seq<u8>>,
    pub string: Option<Seq<u8>>,
}

impl<A> View for DestinationEntry<A> {
    type V = EntryView<A>;

    open spec fn view(&self) -> EntryView<A> {
        EntryView {
            array: self.array,
            name: pdf::bytes_of(self.name),
            string: pdf::bytes_of(self.string),
        }
    }
}

/// The action of a link.
pub struct LinkAction<A> {
    pub action_type: Option<Vec<u8>>,
    pub uri: Option<Vec<u8>>,
    pub destination: DestinationEntry<A>,
}

/// What the action of a link is.
#[verifier::ext_equal]
pub struct ActionView<A> {
    pub action_type: Option<Seq<u8>>,
    pub uri: Option<Seq<u8>>,
    pub destination: EntryView<A>,
}

impl<A> View for LinkAction<A> {
    type V = ActionView<A>;

    open spec fn view(&self) -> ActionView<A> {
        ActionView {
            action_type: pdf::bytes_of(self.action_type),
            uri: pdf::bytes_of(self.uri),
            destination: self.destination@,
        }
    }
}

/// The action of a link, if it has one.
pub open spec fn action_of<A>(action: Option<LinkAction<A>>) -> Option<ActionView<A>> {
    match action {
        Some(action) => Some(action@),
        None => None,
    }
}

/// What a link leads to: an address, or a destination within the document.
pub enum LinkTarget<A> {
    Url(String),
    Array(A),
    Named(Vec<u8>),
}

/// What a link leads to.
#[verifier::ext_equal]
pub enum TargetView<A> {
    Url(Seq<char>),
    Array(A),
    Named(Seq<u8>),
}

impl<A> View for LinkTarget<A> {
    type V = TargetView<A>;

    open spec fn view(&self) -> TargetView<A> {
        match self {
            LinkTarget::Url(url) => TargetView::Url(url@),
            LinkTarget::Array(array) => TargetView::Array(*array),
            LinkTarget::Named(name) => TargetView::Named(name@),
        }
    }
}

/// What a link leads to, if it leads somewhere.
pub open spec fn target_view<A>(target: Option<LinkTarget<A>>) -> Option<TargetView<A>> {
    match target {
        Some(target) => Some(target@),
        None => None,
    }
}

/// The first of two values that is there.
pub open spec fn first_of<T>(a: Option<T>, b: Option<T>) -> Option<T> {
    if a is Some {
        a
    } else {
        b
    }
}

/// Whether an action opens an address.
pub open spec fn opens_address<A>(action: Option<ActionView<A>>) -> bool {
    &&& action is Some
    &&& action->0.action_type == Some("URI".spec_bytes())
    &&& action->0.uri is Some
}

/// The destination entry of an action, which has nothing where there is no action.
pub open spec fn action_entry<A>(action: Option<ActionView<A>>) -> EntryView<A> {
    match action {
        Some(action) => action.destination,
        None => EntryView { array: None, name: None, string: None },
    }
}

/// What a link leads to that has this action and the destination entry `link` of its own. An address
/// goes before a destination, an array before a name and a name before a string, and of two values
/// that of the action goes first.
pub open spec fn target_of<A>(action: Option<ActionView<A>>, link: EntryView<A>) -> Option<
    TargetView<A>,
> {
    let entry = action_entry(action);
    if opens_address(action) {
        Some(TargetView::Url(lossy_text(action->0.uri->0)))
    } else {
        match first_of(entry.array, link.array) {
            Some(array) => Some(TargetView::Array(array)),
            None => match first_of(
                first_of(entry.name, link.name),
                first_of(entry.string, link.string),
            ) {
                Some(name) => Some(TargetView::Named(name)),
                None => None,
            },
        }
    }
}

/// The address that an action of this type opens, if it opens one.
pub fn action_url(action_type: &Option<Vec<u8>>, uri: &Option<Vec<u8>>) -> (r: Option<String>)
    ensures
        r is Some <==> pdf::bytes_of(*action_type) == Some("URI".spec_bytes()) && uri is Some,
        r is Some ==> r->0@ == lossy_text(uri->0@),
        r is Some && valid_utf8(uri->0@) ==> r->0@ == decode_utf8(uri->0@),
{
    match (action_type, uri) {
        (Some(action_type), Some(uri)) => {
            if same_bytes(action_type.as_slice(), "URI".as_bytes()) {
                Some(lossy(uri.as_slice()))
            } else {
                None
            }
        },
        _ => None,
    }
}

/// Decides what a link leads to.
pub fn link_target<A>(action: Option<LinkAction<A>>, link: DestinationEntry<A>) -> (r: Option<
    LinkTarget<A>,
>)
    ensures
        target_view(r) == target_of(action_of(action), link@),
{
    let entry = match action {
        Some(action) => {
            if let Some(url) = action_url(&action.action_type, &action.uri) {
                return Some(LinkTarget::Url(url));
            }
            action.destination
        },
        None => DestinationEntry { array: None, name: None, string: None },
    };
    if let Some(array) = entry.array {
        return Some(LinkTarget::Array(array));
    }
    if let Some(array) = link.array {
        return Some(LinkTarget::Array(array));
    }
    if let Some(name) = entry.name {
        return Some(LinkTarget::Named(name));
    }
    if let Some(name) = link.name {
        return Some(LinkTarget::Named(name));
    }
    if let Some(string) = entry.string {
        return Some(LinkTarget::Named(string));
    }
    if let Some(string) = link.string {
        return Some(LinkTarget::Named(string));
    }
    None
}

/// The first page that a given object describes.
pub open spec fn first_page(ids: Seq<Option<ObjectId>>, id: ObjectId) -> Option<int>
    decreases ids.len(),
{
    if ids.len() == 0 {
        None
    } else if ids.first() == Some(id) {
        Some(0)
    } else {
        match first_page(ids.drop_first(), id) {
            Some(page) => Some(page + 1),
            None => None,
        }
    }
}

/// A page, if there is one.
pub open spec fn page_number(page: Option<usize>) -> Option<int> {
    match page {
        Some(page) => Some(page as int),
        None => None,
    }
}

/// Finds the first page that a given object describes.
pub fn page_of_object(ids: &Vec<Option<ObjectId>>, id: ObjectId) -> (r: Option<usize>)
    ensures
        page_number(r) == first_page(ids@, id),
        r is Some ==> r->0 < ids@.len() && ids@[r->0 as int] == Some(id),
{
    let mut page: usize = 0;
    proof {
        assert(ids@.skip(0) =~= ids@);
    }
    while page < ids.len()
        invariant
            page <= ids@.len(),
            first_page(ids@, id) == match first_page(ids@.skip(page as int), id) {
                Some(rest) => Some(page + rest),
                None => None,
            },
        decreases ids@.len() - page,
    {
        proof {
            assert(ids@.skip(page as int).first() == ids@[page as int]);
            assert(ids@.skip(page as int).drop_first() =~= ids@.skip(page + 1));
        }
        if let Some(other) = ids[page] {
            if other == id {
                return Some(page);
            }
        }
        page += 1;
    }
    None
}

/// The entries of a node of a name tree, up to a name that has no value where there is one.
pub struct NameEntries<V> {
    pub entries: Vec<(Vec<u8>, V)>,
    pub broken: bool,
}

/// The entries with their names as sequences.
pub open spec fn entry_views<V>(entries: Seq<(Vec<u8>, V)>) -> Seq<(Seq<u8>, V)> {
    Seq::new(entries.len(), |i: int| (entries[i].0@, entries[i].1))
}

/// What a node of a name tree says of a name.
pub enum NameLookup<V> {
    /// The value under the name.
    Found(V),
    /// The node is damaged; nothing more can be said.
    Broken,
    /// The node does not have the name.
    Absent,
}

/// What entries say of a name. The first entry of a name counts.
pub open spec fn looked_up<V>(
    entries: Seq<(Seq<u8>, V)>,
    broken: bool,
    name: Seq<u8>,
) -> NameLookup<V>
    decreases entries.len(),
{
    if entries.len() == 0 {
        if broken {
            NameLookup::Broken
        } else {
            NameLookup::Absent
        }
    } else if entries.first().0 == name {
        NameLookup::Found(entries.first().1)
    } else {
        looked_up(entries.drop_first(), broken, name)
    }
}

/// Looks for a name in a node of a name tree.
pub fn find_name<V>(names: NameEntries<V>, name: &[u8]) -> (r: NameLookup<V>)
    ensures
        r == looked_up(entry_views(names.entries@), names.broken, name@),
        r matches NameLookup::Found(value) ==> exists|i: int|
            0 <= i < names.entries@.len() && #[trigger] names.entries@[i].1 == value,
{
    let ghost all = entry_views(names.entries@);
    let mut entries = names.entries;
    let mut i: usize = 0;
    proof {
        assert(all.skip(0) =~= all);
    }
    while i < entries.len()
        invariant
            i <= entries@.len(),
            entries@ == names.entries@,
            all == entry_views(names.entries@),
            looked_up(all, names.broken, name@) == looked_up(
                all.skip(i as int),
                names.broken,
                name@,
            ),
        decreases entries@.len() - i,
    {
        proof {
            assert(all.skip(i as int).first() == (entries@[i as int].0@, entries@[i as int].1));
            assert(all.skip(i as int).drop_first() =~= all.skip(i + 1));
        }
        if same_bytes(entries[i].0.as_slice(), name) {
            let (_, value) = entries.remove(i);
            return NameLookup::Found(value);
        }
        i += 1;
    }
    if names.broken {
        NameLookup::Broken
    } else {
        NameLookup::Absent
    }
}

/// A walk through a name tree, from its root, along the last of the nodes that are known but not
/// visited yet. It ends after so many nodes, whatever the tree looks like.
pub struct NameSearch<N> {
    pub pending: Vec<N>,
    pub visited: u32,
}

impl<N> NameSearch<N> {
    /// A walk that starts at `root`.
    pub fn new(root: N) -> (search: NameSearch<N>)
        ensures
            search.pending@ == seq![root],
            search.visited == 0,
    {
        let mut pending: Vec<N> = Vec::new();
        pending.push(root);
        proof {
            assert(pending@ =~= seq![root]);
        }
        NameSearch { pending, visited: 0 }
    }

    /// Goes to the next node, if there is one left that is to be visited.
    pub fn next_node(&mut self) -> (node: Option<N>)
        ensures
            node is Some <==> old(self).pending@.len() > 0 && old(self).visited < MAX_NAME_NODES,
            match node {
                Some(node) => {
                    &&& node == old(self).pending@.last()
                    &&& final(self).pending@ == old(self).pending@.drop_last()
                    &&& final(self).visited == old(self).visited + 1
                },
                None => *final(self) == *old(self),
            },
    {
        if self.visited >= MAX_NAME_NODES || self.pending.len() == 0 {
            return None;
        }
        self.visited = self.visited + 1;
        let node = self.pending.pop();
        proof {
            assert(self.pending@ =~= old(self).pending@.drop_last());
        }
        node
    }

    /// Takes note of the children of a node.
    pub fn add_children(&mut self, children: Vec<N>)
        ensures
            final(self).pending@ == old(self).pending@ + children@,
            final(self).visited == old(self).visited,
    {
        let mut children = children;
        self.pending.append(&mut children);
    }
}

/// Whether the value of an entry is one that reading it can give; nothing, where something else
/// decided before.
pub open spec fn read_unless<T>(
    decided: bool,
    entries: Set<(Seq<u8>, Option<T>)>,
    key: Seq<u8>,
    value: Option<T>,
) -> bool {
    if decided {
        value is None
    } else {
        entries.contains((key, value))
    }
}

/// Whether the array of an entry is one that reading it can give, where there is a dictionary.
pub open spec fn array_unless(
    decided: bool,
    dict: Option<Dict<'_>>,
    key: Seq<u8>,
    value: Option<Array<'_>>,
) -> bool {
    match dict {
        Some(dict) => read_unless(decided, pdf::dict_arrays(dict), key, value),
        None => value is None,
    }
}

/// Whether the name of an entry is one that reading it can give, where there is a dictionary.
pub open spec fn name_unless(
    decided: bool,
    dict: Option<Dict<'_>>,
    key: Seq<u8>,
    value: Option<Seq<u8>>,
) -> bool {
    match dict {
        Some(dict) => read_unless(decided, pdf::dict_names(dict), key, value),
        None => value is None,
    }
}

/// Whether the string of an entry is one that reading it can give, where there is a dictionary.
pub open spec fn string_unless(
    decided: bool,
    dict: Option<Dict<'_>>,
    key: Seq<u8>,
    value: Option<Seq<u8>>,
) -> bool {
    match dict {
        Some(dict) => read_unless(decided, pdf::dict_strings(dict), key, value),
        None => value is None,
    }
}

/// Whether reading what an annotation and its action `dict` say of a destination can give this. The
/// address is read first, then the arrays, the names and the strings, in each case that of the
/// action before that of the annotation, and nothing is read once something was found.
pub open spec fn reads_in_order(
    annotation: Dict<'_>,
    dict: Option<Dict<'_>>,
    action: Option<ActionView<Array<'_>>>,
    link: EntryView<Array<'_>>,
) -> bool {
    let own = action_entry(action);
    let after_url = opens_address(action);
    let after_own_array = after_url || own.array is Some;
    let after_array = after_own_array || link.array is Some;
    let after_own_name = after_array || own.name is Some;
    let after_name = after_own_name || link.name is Some;
    let after_own_string = after_name || own.string is Some;
    &&& action is Some <==> dict is Some
    &&& dict is Some ==> {
        &&& pdf::dict_names(dict->0).contains(("S".spec_bytes(), action->0.action_type))
        &&& read_unless(
            action->0.action_type != Some("URI".spec_bytes()),
            pdf::dict_strings(dict->0),
            "URI".spec_bytes(),
            action->0.uri,
        )
    }
    &&& array_unless(after_url, dict, "D".spec_bytes(), own.array)
    &&& array_unless(after_own_array, Some(annotation), "Dest".spec_bytes(), link.array)
    &&& name_unless(after_array, dict, "D".spec_bytes(), own.name)
    &&& name_unless(after_own_name, Some(annotation), "Dest".spec_bytes(), link.name)
    &&& string_unless(after_name, dict, "D".spec_bytes(), own.string)
    &&& string_unless(after_own_string, Some(annotation), "Dest".spec_bytes(), link.string)
}

/// Reads the array of an entry, unless something else decided before.
fn optional_array<'a>(decided: bool, dict: &Dict<'a>, key: &str) -> (r: Option<Array<'a>>)
    requires
        readable(pdf::dict_file(*dict)),
    ensures
        read_unless(decided, pdf::dict_arrays(*dict), key.spec_bytes(), r),
        r is Some ==> pdf::array_file(r->0) == pdf::dict_file(*dict),
{
    if decided {
        None
    } else {
        array_entry(dict, key.as_bytes())
    }
}

/// Reads the name of an entry, unless something else decided before.
fn optional_name(decided: bool, dict: &Dict<'_>, key: &str) -> (r: Option<Vec<u8>>)
    requires
        readable(pdf::dict_file(*dict)),
    ensures
        read_unless(decided, pdf::dict_names(*dict), key.spec_bytes(), pdf::bytes_of(r)),
{
    if decided {
        None
    } else {
        name_entry(dict, key.as_bytes())
    }
}

/// Reads the string of an entry, unless something else decided before.
fn optional_string(decided: bool, dict: &Dict<'_>, key: &str) -> (r: Option<Vec<u8>>)
    requires
        readable(pdf::dict_file(*dict)),
    ensures
        read_unless(decided, pdf::dict_strings(*dict), key.spec_bytes(), pdf::bytes_of(r)),
{
    if decided {
        None
    } else {
        string_entry(dict, key.as_bytes())
    }
}

/// Reads what an annotation and its action `dict` say of a destination, no more than is needed.
fn read_in_order<'a>(annotation: &Dict<'a>, dict: &Option<Dict<'a>>) -> (r: (
    Option<LinkAction<Array<'a>>>,
    DestinationEntry<Array<'a>>,
))
    requires
        readable(pdf::dict_file(*annotation)),
        dict is Some ==> pdf::dict_file(dict->0) == pdf::dict_file(*annotation),
    ensures
        reads_in_order(*annotation, *dict, action_of(r.0), r.1@),
        r.0 is Some && r.0->0.destination.array is Some ==> pdf::array_file(
            r.0->0.destination.array->0,
        ) == pdf::dict_file(*annotation),
        r.1.array is Some ==> pdf::array_file(r.1.array->0) == pdf::dict_file(*annotation),
{
    let mut decided = false;
    let (action_type, uri) = match dict {
        Some(action) => {
            let action_type = name_entry(action, "S".as_bytes());
            let is_address = match &action_type {
                Some(action_type) => same_bytes(action_type.as_slice(), "URI".as_bytes()),
                None => false,
            };
            let uri = optional_string(!is_address, action, "URI");
            decided = uri.is_some();
            (action_type, uri)
        },
        None => (None, None),
    };
    let own_array = match dict {
        Some(action) => optional_array(decided, action, "D"),
        None => None,
    };
    decided = decided || own_array.is_some();
    let array = optional_array(decided, annotation, "Dest");
    decided = decided || array.is_some();
    let own_name = match dict {
        Some(action) => optional_name(decided, action, "D"),
        None => None,
    };
    decided = decided || own_name.is_some();
    let name = optional_name(decided, annotation, "Dest");
    decided = decided || name.is_some();
    let own_string = match dict {
        Some(action) => optional_string(decided, action, "D"),
        None => None,
    };
    decided = decided || own_string.is_some();
    let string = optional_string(decided, annotation, "Dest");
    let action = match dict {
        Some(_) => Some(
            LinkAction {
                action_type,
                uri,
                destination: DestinationEntry {
                    array: own_array,
                    name: own_name,
                    string: own_string,
                },
            },
        ),
        None => None,
    };
    (action, DestinationEntry { array, name, string })
}

/// Whether reading the dictionaries of an array, from a position on, can give these.
pub open spec fn reads_dicts(items: FlexArrayIter<'_>, dicts: Seq<Dict<'_>>) -> bool
    decreases dicts.len(),
{
    if dicts.len() == 0 {
        exists|after: FlexArrayIter<'_>| #[trigger] pdf::dicts_at(items).contains((None, after))
    } else {
        exists|after: FlexArrayIter<'_>| #[trigger]
            pdf::dicts_at(items).contains((Some(dicts.first()), after)) && reads_dicts(
                after,
                dicts.drop_first(),
            )
    }
}

/// Whether the dictionaries that are read from `items` on only have to be put behind `front` to be
/// those that are read from `start` on.
pub open spec fn continues_dicts(
    start: FlexArrayIter<'_>,
    front: Seq<Dict<'_>>,
    items: FlexArrayIter<'_>,
) -> bool {
    forall|rest: Seq<Dict<'_>>| #[trigger]
        reads_dicts(items, rest) ==> reads_dicts(start, front + rest)
}

pub(crate) proof fn lemma_reads_no_dict(start: FlexArrayIter<'_>)
    ensures
        continues_dicts(start, Seq::empty(), start),
{
    assert forall|rest: Seq<Dict<'_>>| #[trigger] reads_dicts(start, rest) implies reads_dicts(
        start,
        Seq::<Dict<'_>>::empty() + rest,
    ) by {
        assert(Seq::<Dict<'_>>::empty() + rest =~= rest);
    }
}

pub(crate) proof fn lemma_reads_dict(
    start: FlexArrayIter<'_>,
    front: Seq<Dict<'_>>,
    items: FlexArrayIter<'_>,
    after: FlexArrayIter<'_>,
    dict: Dict<'_>,
)
    requires
        continues_dicts(start, front, items),
        pdf::dicts_at(items).contains((Some(dict), after)),
    ensures
        continues_dicts(start, front.push(dict), after),
{
    assert forall|rest: Seq<Dict<'_>>| #[trigger] reads_dicts(after, rest) implies reads_dicts(
        start,
        front.push(dict) + rest,
    ) by {
        let all = seq![dict] + rest;
        assert(all.first() == dict);
        assert(all.drop_first() =~= rest);
        assert(pdf::dicts_at(items).contains((Some(all.first()), after)));
        assert(reads_dicts(items, all));
        assert(front + all =~= front.push(dict) + rest);
    }
}

pub(crate) proof fn lemma_reads_last_dict(
    start: FlexArrayIter<'_>,
    front: Seq<Dict<'_>>,
    items: FlexArrayIter<'_>,
    after: FlexArrayIter<'_>,
)
    requires
        continues_dicts(start, front, items),
        pdf::dicts_at(items).contains((None, after)),
    ensures
        reads_dicts(start, front),
{
    let rest = Seq::<Dict<'_>>::empty();
    assert(reads_dicts(items, rest));
    assert(front + rest =~= front);
}

/// How the reading of the names and values of a node ended.
pub enum EntriesEnd {
    /// There is nothing left to read.
    Complete,
    /// A name has no value.
    Broken,
    /// What is left was not read.
    Unread,
}

/// Whether reading the names and values of a node, from a position on, can give these entries.
pub open spec fn reads_entries(
    items: FlexArrayIter<'_>,
    entries: Seq<(Seq<u8>, NamedValue<'_>)>,
    end: EntriesEnd,
) -> bool
    decreases entries.len(),
{
    if entries.len() > 0 {
        exists|between: FlexArrayIter<'_>, after: FlexArrayIter<'_>|
            {
                &&& #[trigger] pdf::strings_at(items).contains((Some(entries.first().0), between))
                &&& #[trigger] pdf::values_at(between).contains((Some(entries.first().1), after))
                &&& reads_entries(after, entries.drop_first(), end)
            }
    } else {
        match end {
            EntriesEnd::Complete => exists|after: FlexArrayIter<'_>| #[trigger]
                pdf::strings_at(items).contains((None, after)),
            EntriesEnd::Broken => exists|
                name: Seq<u8>,
                between: FlexArrayIter<'_>,
                after: FlexArrayIter<'_>,
            |
                {
                    &&& #[trigger] pdf::strings_at(items).contains((Some(name), between))
                    &&& #[trigger] pdf::values_at(between).contains((None, after))
                },
            EntriesEnd::Unread => true,
        }
    }
}

/// Whether the reading of entries stopped behind the first one of a name, and there alone.
pub open spec fn stops_at<V>(
    entries: Seq<(Seq<u8>, V)>,
    end: EntriesEnd,
    name: Seq<u8>,
) -> bool {
    &&& forall|i: int| 0 <= i < entries.len() - 1 ==> (#[trigger] entries[i]).0 != name
    &&& end is Unread <==> entries.len() > 0 && entries.last().0 == name
}

proof fn lemma_reads_one_more(
    start: FlexArrayIter<'_>,
    front: Seq<(Seq<u8>, NamedValue<'_>)>,
    items: FlexArrayIter<'_>,
    between: FlexArrayIter<'_>,
    after: FlexArrayIter<'_>,
    entry: (Seq<u8>, NamedValue<'_>),
)
    requires
        continues(start, front, items),
        pdf::strings_at(items).contains((Some(entry.0), between)),
        pdf::values_at(between).contains((Some(entry.1), after)),
    ensures
        continues(start, front.push(entry), after),
{
    assert forall|rest: Seq<(Seq<u8>, NamedValue<'_>)>, end: EntriesEnd| #[trigger]
        reads_entries(after, rest, end) implies reads_entries(
        start,
        front.push(entry) + rest,
        end,
    ) by {
        let all = seq![entry] + rest;
        assert(all.first() == entry);
        assert(all.drop_first() =~= rest);
        assert(pdf::strings_at(items).contains((Some(all.first().0), between)));
        assert(pdf::values_at(between).contains((Some(all.first().1), after)));
        assert(reads_entries(items, all, end));
        assert(front + all =~= front.push(entry) + rest);
    }
}

/// Whether what is read from `items` on only has to be put behind `front` to be what is read from
/// `start` on.
spec fn continues(
    start: FlexArrayIter<'_>,
    front: Seq<(Seq<u8>, NamedValue<'_>)>,
    items: FlexArrayIter<'_>,
) -> bool {
    forall|rest: Seq<(Seq<u8>, NamedValue<'_>)>, end: EntriesEnd| #[trigger]
        reads_entries(items, rest, end) ==> reads_entries(start, front + rest, end)
}

proof fn lemma_reads_end(
    start: FlexArrayIter<'_>,
    front: Seq<(Seq<u8>, NamedValue<'_>)>,
    items: FlexArrayIter<'_>,
    end: EntriesEnd,
)
    requires
        continues(start, front, items),
        reads_entries(items, Seq::empty(), end),
    ensures
        reads_entries(start, front, end),
{
    assert(front + Seq::<(Seq<u8>, NamedValue<'_>)>::empty() =~= front);
}

/// Whether reading the entries of an array until one has a given name can give this.
pub open spec fn reads_until(
    names: Array<'_>,
    name: Seq<u8>,
    entries: Seq<(Seq<u8>, NamedValue<'_>)>,
    broken: bool,
) -> bool {
    exists|end: EntriesEnd| #[trigger]
        reads_entries(pdf::array_start(names), entries, end) && stops_at(entries, end, name)
            && broken == (end is Broken)
}

/// Reads the names and values of a node of a name tree until one has a given name.
fn name_entries<'a>(names: &Array<'a>, wanted: &[u8]) -> (r: NameEntries<NamedValue<'a>>)
    requires
        readable(pdf::array_file(*names)),
    ensures
        reads_until(*names, wanted@, entry_views(r.entries@), r.broken),
        forall|i: int|
            0 <= i < r.entries@.len() ==> pdf::value_in(
                (#[trigger] r.entries@[i]).1,
                pdf::array_file(*names),
            ),
{
    let mut items = array_items(names);
    let ghost start = items;
    let mut entries: Vec<(Vec<u8>, NamedValue<'a>)> = Vec::new();
    proof {
        let nothing = Seq::<(Seq<u8>, NamedValue<'a>)>::empty();
        assert(entry_views(entries@) =~= nothing);
        assert forall|rest: Seq<(Seq<u8>, NamedValue<'_>)>, end: EntriesEnd| #[trigger]
            reads_entries(items, rest, end) implies reads_entries(
            start,
            entry_views(entries@) + rest,
            end,
        ) by {
            assert(nothing + rest =~= rest);
        }
    }
    loop
        invariant
            readable(pdf::array_file(*names)),
            pdf::items_file(items) == pdf::array_file(*names),
            start == pdf::array_start(*names),
            continues(start, entry_views(entries@), items),
            forall|i: int|
                0 <= i < entries@.len() ==> (#[trigger] entry_views(entries@)[i]).0 != wanted@,
            forall|i: int|
                0 <= i < entries@.len() ==> pdf::value_in(
                    (#[trigger] entries@[i]).1,
                    pdf::array_file(*names),
                ),
        decreases pdf::unread_bytes(items),
    {
        let ghost before = items;
        let ghost front = entry_views(entries@);
        let name = match next_string(&mut items) {
            Some(name) => name,
            None => {
                proof {
                    assert(pdf::strings_at(before).contains((None, items)));
                    lemma_reads_end(start, front, before, EntriesEnd::Complete);
                }
                return NameEntries { entries, broken: false };
            },
        };
        let ghost between = items;
        match next_value(&mut items) {
            Some(value) => {
                let ghost entry = (name@, value);
                let found = same_bytes(name.as_slice(), wanted);
                proof {
                    lemma_reads_one_more(start, front, before, between, items, entry);
                }
                entries.push((name, value));
                proof {
                    assert(entry_views(entries@) =~= front.push(entry));
                }
                if found {
                    proof {
                        lemma_reads_end(start, front.push(entry), items, EntriesEnd::Unread);
                        assert(stops_at(front.push(entry), EntriesEnd::Unread, wanted@));
                    }
                    return NameEntries { entries, broken: false };
                }
            },
            None => {
                proof {
                    assert(pdf::strings_at(before).contains((Some(name@), between)));
                    assert(pdf::values_at(between).contains((None, items)));
                    lemma_reads_end(start, front, before, EntriesEnd::Broken);
                }
                return NameEntries { entries, broken: true };
            },
        }
    }
}

/// Whether looking for a name in a node of a name tree can give this.
pub open spec fn reads_node(
    node: Dict<'_>,
    name: Seq<u8>,
    found: NameLookup<NamedValue<'_>>,
) -> bool {
    exists|names: Option<Array<'_>>| #[trigger]
        pdf::dict_arrays(node).contains(("Names".spec_bytes(), names)) && match names {
            Some(names) => exists|entries: Seq<(Seq<u8>, NamedValue<'_>)>, broken: bool| #[trigger]
                reads_until(names, name, entries, broken) && found == looked_up(
                    entries,
                    broken,
                    name,
                ),
            None => found == NameLookup::<NamedValue<'_>>::Absent,
        }
}

/// Looks for a name in a node of a name tree.
fn look_in_node<'a>(node: &Dict<'a>, name: &[u8]) -> (r: NameLookup<NamedValue<'a>>)
    requires
        readable(pdf::dict_file(*node)),
    ensures
        reads_node(*node, name@, r),
        r matches NameLookup::Found(value) ==> pdf::value_in(value, pdf::dict_file(*node)),
{
    let names = array_entry(node, "Names".as_bytes());
    let ghost read = names;
    proof {
        assert(pdf::dict_arrays(*node).contains(("Names".spec_bytes(), read)));
    }
    match names {
        Some(names) => {
            let entries = name_entries(&names, name);
            proof {
                assert(reads_until(names, name@, entry_views(entries.entries@), entries.broken));
            }
            find_name(entries, name)
        },
        None => NameLookup::Absent,
    }
}

/// Whether reading the children of a node of a name tree can give these.
pub open spec fn reads_children(node: Dict<'_>, children: Seq<Dict<'_>>) -> bool {
    exists|kids: Option<Array<'_>>| #[trigger]
        pdf::dict_arrays(node).contains(("Kids".spec_bytes(), kids)) && match kids {
            Some(kids) => reads_dicts(pdf::array_start(kids), children),
            None => children.len() == 0,
        }
}

/// Reads the dictionaries of an array.
fn all_dicts<'a>(array: &Array<'a>) -> (r: Vec<Dict<'a>>)
    requires
        readable(pdf::array_file(*array)),
    ensures
        reads_dicts(pdf::array_start(*array), r@),
        forall|i: int|
            0 <= i < r@.len() ==> pdf::dict_file(#[trigger] r@[i]) == pdf::array_file(*array),
{
    let mut items = array_items(array);
    let ghost start = items;
    let mut dicts: Vec<Dict<'a>> = Vec::new();
    proof {
        lemma_reads_no_dict(start);
        assert(dicts@ =~= Seq::empty());
    }
    loop
        invariant
            readable(pdf::array_file(*array)),
            pdf::items_file(items) == pdf::array_file(*array),
            start == pdf::array_start(*array),
            continues_dicts(start, dicts@, items),
            forall|i: int|
                0 <= i < dicts@.len() ==> pdf::dict_file(#[trigger] dicts@[i])
                    == pdf::array_file(*array),
        decreases pdf::unread_bytes(items),
    {
        let ghost before = items;
        match next_dict(&mut items) {
            Some(dict) => {
                proof {
                    lemma_reads_dict(start, dicts@, before, items, dict);
                }
                dicts.push(dict);
            },
            None => {
                proof {
                    lemma_reads_last_dict(start, dicts@, before, items);
                }
                return dicts;
            },
        }
    }
}

/// Reads the children of a node of a name tree.
fn node_children<'a>(node: &Dict<'a>) -> (r: Vec<Dict<'a>>)
    requires
        readable(pdf::dict_file(*node)),
    ensures
        reads_children(*node, r@),
        forall|i: int|
            0 <= i < r@.len() ==> pdf::dict_file(#[trigger] r@[i]) == pdf::dict_file(*node),
{
    let kids = array_entry(node, "Kids".as_bytes());
    let ghost read = kids;
    proof {
        assert(pdf::dict_arrays(*node).contains(("Kids".spec_bytes(), read)));
    }
    match kids {
        Some(kids) => all_dicts(&kids),
        None => Vec::new(),
    }
}

/// Whether a walk through a name tree that has come to `pending` can find this.
pub open spec fn walk_finds(
    pending: Seq<Dict<'_>>,
    visited: int,
    name: Seq<u8>,
    found: Option<Array<'_>>,
) -> bool
    decreases MAX_NAME_NODES - visited,
{
    if pending.len() == 0 || visited >= MAX_NAME_NODES {
        found is None
    } else {
        exists|lookup: NameLookup<NamedValue<'_>>| #[trigger]
            reads_node(pending.last(), name, lookup) && match lookup {
                NameLookup::Found(NamedValue::Array(array)) => found == Some(array),
                NameLookup::Found(NamedValue::Dict(dict)) => {
                    pdf::dict_arrays(dict).contains(("D".spec_bytes(), found))
                },
                NameLookup::Found(NamedValue::Other) => found is None,
                NameLookup::Broken => found is None,
                NameLookup::Absent => exists|children: Seq<Dict<'_>>| #[trigger]
                    reads_children(pending.last(), children) && walk_finds(
                        pending.drop_last() + children,
                        visited + 1,
                        name,
                        found,
                    ),
            }
    }
}

/// Walks through a name tree.
fn walk<'a>(root: Dict<'a>, name: &[u8]) -> (r: Option<Array<'a>>)
    requires
        readable(pdf::dict_file(root)),
    ensures
        walk_finds(seq![root], 0, name@, r),
        r is Some ==> pdf::array_file(r->0) == pdf::dict_file(root),
{
    let mut search = NameSearch::new(root);
    loop
        invariant
            search.visited <= MAX_NAME_NODES,
            readable(pdf::dict_file(root)),
            forall|i: int|
                0 <= i < search.pending@.len() ==> pdf::dict_file(#[trigger] search.pending@[i])
                    == pdf::dict_file(root),
            forall|found: Option<Array<'_>>| #[trigger]
                walk_finds(search.pending@, search.visited as int, name@, found) ==> walk_finds(
                    seq![root],
                    0,
                    name@,
                    found,
                ),
        decreases MAX_NAME_NODES - search.visited,
    {
        let ghost pending = search.pending@;
        let ghost visited = search.visited as int;
        let node = match search.next_node() {
            Some(node) => node,
            None => {
                proof {
                    assert(walk_finds(pending, visited, name@, None));
                }
                return None;
            },
        };
        let lookup = look_in_node(&node, name);
        let ghost read = lookup;
        proof {
            assert(reads_node(pending.last(), name@, read));
        }
        match lookup {
            NameLookup::Found(NamedValue::Array(array)) => {
                proof {
                    assert(walk_finds(pending, visited, name@, Some(array)));
                }
                return Some(array);
            },
            NameLookup::Found(NamedValue::Dict(dict)) => {
                let found = array_entry(&dict, "D".as_bytes());
                proof {
                    assert(walk_finds(pending, visited, name@, found));
                }
                return found;
            },
            NameLookup::Found(NamedValue::Other) => {
                proof {
                    assert(walk_finds(pending, visited, name@, None));
                }
                return None;
            },
            NameLookup::Broken => {
                proof {
                    assert(walk_finds(pending, visited, name@, None));
                }
                return None;
            },
            NameLookup::Absent => {},
        }
        let children = node_children(&node);
        let ghost known = children@;
        search.add_children(children);
        proof {
            assert forall|found: Option<Array<'_>>| #[trigger]
                walk_finds(search.pending@, search.visited as int, name@, found) implies walk_finds(
                seq![root],
                0,
                name@,
                found,
            ) by {
                assert(reads_children(pending.last(), known));
                assert(walk_finds(pending, visited, name@, found));
            }
        }
    }
}

/// Whether looking for a name among the destinations of a catalog can give this.
pub open spec fn reads_direct(
    destinations: Dict<'_>,
    name: Seq<u8>,
    found: Option<Array<'_>>,
) -> bool {
    exists|array: Option<Array<'_>>| #[trigger]
        pdf::dict_arrays(destinations).contains((name, array)) && if array is Some {
            found == array
        } else {
            exists|dict: Option<Dict<'_>>| #[trigger]
                pdf::dict_dicts(destinations).contains((name, dict)) && match dict {
                    Some(dict) => pdf::dict_arrays(dict).contains(("D".spec_bytes(), found)),
                    None => found is None,
                }
        }
}

/// Looks for a name among the destinations of a catalog.
fn direct_destination<'a>(destinations: &Dict<'a>, name: &[u8]) -> (r: Option<Array<'a>>)
    requires
        readable(pdf::dict_file(*destinations)),
    ensures
        reads_direct(*destinations, name@, r),
        r is Some ==> pdf::array_file(r->0) == pdf::dict_file(*destinations),
{
    let array = array_entry(destinations, name);
    let ghost read = array;
    proof {
        assert(pdf::dict_arrays(*destinations).contains((name@, read)));
    }
    if array.is_some() {
        return array;
    }
    let dict = dict_entry(destinations, name);
    let ghost read_dict = dict;
    proof {
        assert(pdf::dict_dicts(*destinations).contains((name@, read_dict)));
    }
    match dict {
        Some(dict) => array_entry(&dict, "D".as_bytes()),
        None => None,
    }
}

/// Whether looking for a name in the name tree of a catalog can give this.
pub open spec fn reads_tree(catalog: Dict<'_>, name: Seq<u8>, found: Option<Array<'_>>) -> bool {
    exists|names: Option<Dict<'_>>| #[trigger]
        pdf::dict_dicts(catalog).contains(("Names".spec_bytes(), names)) && match names {
            Some(names) => exists|root: Option<Dict<'_>>| #[trigger]
                pdf::dict_dicts(names).contains(("Dests".spec_bytes(), root)) && match root {
                    Some(root) => walk_finds(seq![root], 0, name, found),
                    None => found is None,
                },
            None => found is None,
        }
}

/// Looks for a name in the name tree of a catalog.
fn tree_destination<'a>(catalog: &Dict<'a>, name: &[u8]) -> (r: Option<Array<'a>>)
    requires
        readable(pdf::dict_file(*catalog)),
    ensures
        reads_tree(*catalog, name@, r),
        r is Some ==> pdf::array_file(r->0) == pdf::dict_file(*catalog),
{
    let names = dict_entry(catalog, "Names".as_bytes());
    let ghost read = names;
    proof {
        assert(pdf::dict_dicts(*catalog).contains(("Names".spec_bytes(), read)));
    }
    match names {
        Some(names) => {
            let root = dict_entry(&names, "Dests".as_bytes());
            let ghost read_root = root;
            proof {
                assert(pdf::dict_dicts(names).contains(("Dests".spec_bytes(), read_root)));
            }
            match root {
                Some(root) => walk(root, name),
                None => None,
            }
        },
        None => None,
    }
}

/// Whether looking for a name in a catalog can give this: what the destinations of the catalog have
/// goes before what its name tree has.
pub open spec fn reads_catalog(
    catalog: Dict<'_>,
    name: Seq<u8>,
    found: Option<Array<'_>>,
) -> bool {
    exists|destinations: Option<Dict<'_>>| #[trigger]
        pdf::dict_dicts(catalog).contains(("Dests".spec_bytes(), destinations)) && {
            ||| destinations is Some && found is Some && reads_direct(destinations->0, name, found)
            ||| (destinations is Some ==> reads_direct(destinations->0, name, None)) && reads_tree(
                catalog,
                name,
                found,
            )
        }
}

/// Whether looking for a name in a document can give this array.
pub open spec fn reads_named(document: &Pdf, name: Seq<u8>, found: Option<Array<'_>>) -> bool {
    exists|catalog: Option<Dict<'_>>| #[trigger]
        pdf::catalogs(document).contains(catalog) && match catalog {
            Some(catalog) => reads_catalog(catalog, name, found),
            None => found is None,
        }
}

/// The array that a name of a document stands for.
fn named_destination<'a>(document: &'a Pdf, name: &[u8]) -> (r: Option<Array<'a>>)
    requires
        readable(pdf::document_data(document)),
    ensures
        reads_named(document, name@, r),
        r is Some ==> pdf::array_file(r->0) == pdf::document_data(document),
{
    let root = catalog(document);
    let ghost read = root;
    proof {
        assert(pdf::catalogs(document).contains(read));
    }
    let catalog = match root {
        Some(catalog) => catalog,
        None => {
            return None;
        },
    };
    let destinations = dict_entry(&catalog, "Dests".as_bytes());
    let ghost read_destinations = destinations;
    proof {
        assert(pdf::dict_dicts(catalog).contains(("Dests".spec_bytes(), read_destinations)));
    }
    if let Some(destinations) = destinations {
        let found = direct_destination(&destinations, name);
        if found.is_some() {
            return found;
        }
    }
    tree_destination(&catalog, name)
}

/// The page of the object that a dictionary is.
pub open spec fn page_of_dict(document: &Pdf, dict: Option<Dict<'_>>) -> Option<int> {
    match dict {
        Some(dict) => match pdf::dict_object(dict) {
            Some(id) => first_page(pdf::page_objects(document), id),
            None => None,
        },
        None => None,
    }
}

/// Whether reading the page that a destination starts with can give this.
pub open spec fn reads_page(
    document: &Pdf,
    destination: Array<'_>,
    page: Option<int>,
) -> bool {
    exists|dict: Option<Dict<'_>>, after: FlexArrayIter<'_>| #[trigger]
        pdf::dicts_at(pdf::array_start(destination)).contains((dict, after)) && page
            == page_of_dict(document, dict)
}

/// The page that a destination starts with. `ids` are the objects that describe the pages.
fn destination_page(
    document: &Pdf,
    ids: &Vec<Option<ObjectId>>,
    destination: &Array<'_>,
) -> (r: Option<usize>)
    requires
        ids@ == pdf::page_objects(document),
        readable(pdf::array_file(*destination)),
    ensures
        reads_page(document, *destination, page_number(r)),
        r is Some ==> r->0 < ids@.len(),
{
    let mut items = array_items(destination);
    let dict = next_dict(&mut items);
    let ghost read = dict;
    proof {
        assert(pdf::dicts_at(pdf::array_start(*destination)).contains((read, items)));
    }
    match dict {
        Some(page) => match dict_id(&page) {
            Some(id) => page_of_object(ids, id),
            None => None,
        },
        None => None,
    }
}

/// A link to a page, if there is one.
pub open spec fn to_page_view(page: Option<int>) -> Option<DestinationView> {
    match page {
        Some(page) => Some(DestinationView::Page(page)),
        None => None,
    }
}

/// Whether following a destination can lead there.
pub open spec fn reads_array(
    document: &Pdf,
    array: Array<'_>,
    destination: Option<DestinationView>,
) -> bool {
    exists|page: Option<int>| #[trigger]
        reads_page(document, array, page) && destination == to_page_view(page)
}

/// Whether following what was found under a name can lead there.
pub open spec fn reads_found(
    document: &Pdf,
    found: Option<Array<'_>>,
    destination: Option<DestinationView>,
) -> bool {
    match found {
        Some(array) => reads_array(document, array, destination),
        None => destination is None,
    }
}

/// Whether following a name can lead there.
pub open spec fn reads_name(
    document: &Pdf,
    name: Seq<u8>,
    destination: Option<DestinationView>,
) -> bool {
    exists|found: Option<Array<'_>>|
        #![trigger reads_named(document, name, found)]
        reads_named(document, name, found) && reads_found(document, found, destination)
}

/// Whether following a target can lead there.
pub open spec fn reads_target(
    document: &Pdf,
    target: Option<TargetView<Array<'_>>>,
    destination: Option<DestinationView>,
) -> bool {
    match target {
        None => destination is None,
        Some(TargetView::Url(url)) => destination == Some(DestinationView::Url(url)),
        Some(TargetView::Array(array)) => reads_array(document, array, destination),
        Some(TargetView::Named(name)) => reads_name(document, name, destination),
    }
}

/// Follows a destination. `ids` are the objects that describe the pages.
fn follow_array(document: &Pdf, ids: &Vec<Option<ObjectId>>, array: &Array<'_>) -> (r: Option<
    LinkDestination,
>)
    requires
        ids@ == pdf::page_objects(document),
        readable(pdf::array_file(*array)),
    ensures
        reads_array(document, *array, destination_of(r)),
        r matches Some(LinkDestination::Page(page)) ==> page < ids@.len(),
{
    let page = destination_page(document, ids, array);
    proof {
        assert(reads_page(document, *array, page_number(page)));
    }
    match page {
        Some(page) => Some(LinkDestination::Page(page)),
        None => None,
    }
}

/// Follows a target. `ids` are the objects that describe the pages.
fn follow_target(
    document: &Pdf,
    ids: &Vec<Option<ObjectId>>,
    target: Option<LinkTarget<Array<'_>>>,
) -> (r: Option<LinkDestination>)
    requires
        ids@ == pdf::page_objects(document),
        readable(pdf::document_data(document)),
        target matches Some(LinkTarget::Array(array)) ==> readable(pdf::array_file(array)),
    ensures
        reads_target(document, target_view(target), destination_of(r)),
        r matches Some(LinkDestination::Page(page)) ==> page < ids@.len(),
{
    match target {
        None => None,
        Some(LinkTarget::Url(url)) => Some(LinkDestination::Url(url)),
        Some(LinkTarget::Array(array)) => follow_array(document, ids, &array),
        Some(LinkTarget::Named(name)) => {
            let found = named_destination(document, name.as_slice());
            let ghost read = found;
            let r = match found {
                Some(array) => follow_array(document, ids, &array),
                None => None,
            };
            proof {
                assert(reads_named(document, name@, read));
                assert(reads_found(document, read, destination_of(r)));
                assert(reads_name(document, name@, destination_of(r)));
            }
            r
        },
    }
}

/// Where a link leads, if it leads somewhere.
pub open spec fn destination_of(destination: Option<LinkDestination>) -> Option<DestinationView> {
    match destination {
        Some(destination) => Some(destination@),
        None => None,
    }
}

/// Whether reading where an annotation leads can give this.
pub open spec fn reads_destination(
    document: &Pdf,
    annotation: Dict<'_>,
    destination: Option<DestinationView>,
) -> bool {
    exists|
        dict: Option<Dict<'_>>,
        action: Option<ActionView<Array<'_>>>,
        link: EntryView<Array<'_>>,
    |
        {
            &&& pdf::dict_dicts(annotation).contains(("A".spec_bytes(), dict))
            &&& #[trigger] reads_in_order(annotation, dict, action, link)
            &&& reads_target(document, target_of(action, link), destination)
        }
}

/// Where a link leads, if it leads somewhere. `ids` are the objects that describe the pages.
fn link_destination(
    document: &Pdf,
    ids: &Vec<Option<ObjectId>>,
    annotation: &Dict<'_>,
) -> (r: Option<LinkDestination>)
    requires
        ids@ == pdf::page_objects(document),
        readable(pdf::document_data(document)),
        pdf::dict_file(*annotation) == pdf::document_data(document),
    ensures
        reads_destination(document, *annotation, destination_of(r)),
        r matches Some(LinkDestination::Page(page)) ==> page < ids@.len(),
{
    let dict = dict_entry(annotation, "A".as_bytes());
    let (action, link) = read_in_order(annotation, &dict);
    let ghost action_read = action_of(action);
    let ghost link_read = link@;
    proof {
        assert(pdf::dict_dicts(*annotation).contains(("A".spec_bytes(), dict)));
        assert(reads_in_order(*annotation, dict, action_read, link_read));
    }
    let target = link_target(action, link);
    let r = follow_target(document, ids, target);
    proof {
        assert(reads_target(document, target_of(action_read, link_read), destination_of(r)));
    }
    r
}

/// A link as it is read: its place in the coordinates in which the page is rendered, and where it
/// leads.
#[verifier::ext_equal]
pub struct LinkReading {
    pub bounds: DeviceRect,
    pub destination: DestinationView,
}

/// Whether reading the place of a link, and where it leads, can give this.
pub open spec fn reads_place(
    document: &Pdf,
    index: int,
    annotation: Dict<'_>,
    rect: Option<Rect>,
    link: Option<LinkReading>,
) -> bool {
    match rect {
        None => link is None,
        Some(rect) => exists|destination: Option<DestinationView>| #[trigger]
            reads_destination(document, annotation, destination) && match destination {
                None => link is None,
                Some(destination) => {
                    &&& link is Some
                    &&& link->0.destination == destination
                    &&& pdf::device_rects(document, index, rect).contains(link->0.bounds)
                },
            },
    }
}

/// Whether reading the flags of an annotation of this subtype can give this. Those of an annotation
/// that is no link are not read.
pub open spec fn reads_flags(
    annotation: Dict<'_>,
    subtype: Option<Seq<u8>>,
    flags: Option<u32>,
) -> bool {
    read_unless(
        !visible_link(subtype, None),
        pdf::dict_numbers(annotation),
        "F".spec_bytes(),
        flags,
    )
}

/// Whether reading an annotation of the page `index` can give this link.
pub open spec fn reads_link(
    document: &Pdf,
    index: int,
    annotation: Dict<'_>,
    link: Option<LinkReading>,
) -> bool {
    exists|subtype: Option<Seq<u8>>, flags: Option<u32>|
        {
            &&& #[trigger] pdf::dict_names(annotation).contains(("Subtype".spec_bytes(), subtype))
            &&& #[trigger] reads_flags(annotation, subtype, flags)
            &&& if visible_link(subtype, flags) {
                exists|rect: Option<Rect>| #[trigger]
                    pdf::dict_rects(annotation).contains(("Rect".spec_bytes(), rect))
                        && reads_place(document, index, annotation, rect, link)
            } else {
                link is None
            }
        }
}

/// A link that was read.
pub open spec fn reading_of(link: Option<(DeviceRect, LinkDestination)>) -> Option<LinkReading> {
    match link {
        Some((bounds, destination)) => Some(LinkReading { bounds, destination: destination@ }),
        None => None,
    }
}

/// The place of a link and where it leads, for an annotation that is a link and leads somewhere.
/// `ids` are the objects that describe the pages.
pub(crate) fn read_link(
    document: &Pdf,
    page_index: usize,
    ids: &Vec<Option<ObjectId>>,
    annotation: &Dict<'_>,
) -> (r: Option<(DeviceRect, LinkDestination)>)
    requires
        page_index < pdf::document_sizes(document).len(),
        ids@ == pdf::page_objects(document),
        readable(pdf::document_data(document)),
        pdf::dict_file(*annotation) == pdf::document_data(document),
    ensures
        reads_link(document, page_index as int, *annotation, reading_of(r)),
        r matches Some((_, LinkDestination::Page(page))) ==> page < ids@.len(),
{
    let subtype = name_entry(annotation, "Subtype".as_bytes());
    let flags = if is_visible_link(&subtype, None) {
        number_entry(annotation, "F".as_bytes())
    } else {
        None
    };
    proof {
        assert(pdf::dict_names(*annotation).contains(
            ("Subtype".spec_bytes(), pdf::bytes_of(subtype)),
        ));
        assert(reads_flags(*annotation, pdf::bytes_of(subtype), flags));
    }
    if !is_visible_link(&subtype, flags) {
        return None;
    }
    let rect = rect_entry(annotation, "Rect".as_bytes());
    let ghost read = rect;
    proof {
        assert(pdf::dict_rects(*annotation).contains(("Rect".spec_bytes(), read)));
    }
    let rect = match rect {
        Some(rect) => rect,
        None => {
            return None;
        },
    };
    let destination = link_destination(document, ids, annotation);
    proof {
        assert(reads_destination(document, *annotation, destination_of(destination)));
    }
    let link = match destination {
        Some(destination) => Some((device_rect(document, page_index, rect), destination)),
        None => None,
    };
    proof {
        assert(reads_place(document, page_index as int, *annotation, read, reading_of(link)));
    }
    link
}

/// Whether nothing but this can be read under a key.
pub open spec fn reads_only<T>(
    entries: Set<(Seq<u8>, Option<T>)>,
    key: Seq<u8>,
    value: Option<T>,
) -> bool {
    forall|read: Option<T>| #[trigger] entries.contains((key, read)) ==> read == value
}

/// Whether a destination starts with the page `page`: with the object of that page, which is the
/// object of no page before it.
pub open spec fn starts_with_page(document: &Pdf, destination: Array<'_>, page: int) -> bool {
    forall|dict: Option<Dict<'_>>, after: FlexArrayIter<'_>| #[trigger]
        pdf::dicts_at(pdf::array_start(destination)).contains((dict, after)) ==> {
            &&& dict is Some
            &&& pdf::dict_object(dict->0) is Some
            &&& 0 <= page < pdf::document_dicts(document).len()
            &&& pdf::dict_object(pdf::document_dicts(document)[page]) == pdf::dict_object(dict->0)
            &&& forall|earlier: int|
                0 <= earlier < page ==> pdf::dict_object(
                    #[trigger] pdf::document_dicts(document)[earlier],
                ) != pdf::dict_object(dict->0)
        }
}

/// The page of an object is one that the object describes, and none before it does; an object that
/// describes no page has none.
pub proof fn objects_have_their_first_page(ids: Seq<Option<ObjectId>>, id: ObjectId)
    ensures
        match first_page(ids, id) {
            Some(page) => {
                &&& 0 <= page < ids.len()
                &&& ids[page] == Some(id)
                &&& forall|i: int| 0 <= i < page ==> #[trigger] ids[i] != Some(id)
            },
            None => forall|i: int| 0 <= i < ids.len() ==> #[trigger] ids[i] != Some(id),
        },
    decreases ids.len(),
{
    if ids.len() > 0 && ids.first() != Some(id) {
        let rest = ids.drop_first();
        objects_have_their_first_page(rest, id);
        match first_page(ids, id) {
            Some(page) => {
                assert forall|i: int| 0 <= i < page implies #[trigger] ids[i] != Some(id) by {
                    if i > 0 {
                        assert(rest[i - 1] == ids[i]);
                    }
                }
                assert(rest[page - 1] == ids[page]);
            },
            None => {
                assert forall|i: int| 0 <= i < ids.len() implies #[trigger] ids[i] != Some(
                    id,
                ) by {
                    if i > 0 {
                        assert(rest[i - 1] == ids[i]);
                    }
                }
            },
        }
    }
}

/// A destination that starts with a page leads to that page.
pub proof fn destinations_lead_to_their_page(
    document: &Pdf,
    array: Array<'_>,
    page: int,
    destination: Option<DestinationView>,
)
    requires
        starts_with_page(document, array, page),
        reads_array(document, array, destination),
    ensures
        destination == Some(DestinationView::Page(page)),
{
    let read = choose|read: Option<int>| #[trigger]
        reads_page(document, array, read) && destination == to_page_view(read);
    let (dict, after) = choose|dict: Option<Dict<'_>>, after: FlexArrayIter<'_>| #[trigger]
        pdf::dicts_at(pdf::array_start(array)).contains((dict, after)) && read == page_of_dict(
            document,
            dict,
        );
    let ids = pdf::page_objects(document);
    let id = pdf::dict_object(dict->0)->0;
    objects_have_their_first_page(ids, id);
    assert(ids[page] == Some(id));
    let found = first_page(ids, id)->0;
    if found < page {
        assert(ids[found] == pdf::dict_object(pdf::document_dicts(document)[found]));
    }
}

/// What entries say of a name is the value of the first one with that name. Entries without the name
/// say that it is absent, unless they break off.
pub proof fn first_entry_of_a_name_counts<V>(
    entries: Seq<(Seq<u8>, V)>,
    broken: bool,
    name: Seq<u8>,
)
    ensures
        match looked_up(entries, broken, name) {
            NameLookup::Found(value) => exists|i: int|
                {
                    &&& 0 <= i < entries.len()
                    &&& (#[trigger] entries[i]).0 == name
                    &&& entries[i].1 == value
                    &&& forall|j: int| 0 <= j < i ==> (#[trigger] entries[j]).0 != name
                },
            NameLookup::Broken => broken && forall|j: int|
                0 <= j < entries.len() ==> (#[trigger] entries[j]).0 != name,
            NameLookup::Absent => !broken && forall|j: int|
                0 <= j < entries.len() ==> (#[trigger] entries[j]).0 != name,
        },
    decreases entries.len(),
{
    if entries.len() > 0 {
        if entries.first().0 == name {
            assert(entries[0].0 == name);
        } else {
            let rest = entries.drop_first();
            first_entry_of_a_name_counts(rest, broken, name);
            match looked_up(entries, broken, name) {
                NameLookup::Found(value) => {
                    let i = choose|i: int|
                        {
                            &&& 0 <= i < rest.len()
                            &&& (#[trigger] rest[i]).0 == name
                            &&& rest[i].1 == value
                            &&& forall|j: int| 0 <= j < i ==> (#[trigger] rest[j]).0 != name
                        };
                    assert(entries[i + 1] == rest[i]);
                    assert forall|j: int| 0 <= j < i + 1 implies (#[trigger] entries[j]).0
                        != name by {
                        if j > 0 {
                            assert(rest[j - 1] == entries[j]);
                        }
                    }
                },
                _ => {
                    assert forall|j: int| 0 <= j < entries.len() implies (
                    #[trigger] entries[j]).0 != name by {
                        if j > 0 {
                            assert(rest[j - 1] == entries[j]);
                        }
                    }
                },
            }
        }
    }
}

/// A name tree: the dictionary of its root, the names and values that the root has, and its children.
pub struct NameTree<'a> {
    pub node: Dict<'a>,
    pub entries: Seq<(Seq<u8>, NamedValue<'a>)>,
    pub kids: Seq<NameTree<'a>>,
}

/// Whether nothing but these names and values can be read from a position on.
pub open spec fn reads_only_entries(
    items: FlexArrayIter<'_>,
    entries: Seq<(Seq<u8>, NamedValue<'_>)>,
) -> bool
    decreases entries.len(),
{
    if entries.len() == 0 {
        forall|name: Option<Seq<u8>>, after: FlexArrayIter<'_>| #[trigger]
            pdf::strings_at(items).contains((name, after)) ==> name is None
    } else {
        forall|name: Option<Seq<u8>>, between: FlexArrayIter<'_>| #[trigger]
            pdf::strings_at(items).contains((name, between)) ==> name == Some(entries.first().0)
                && forall|value: Option<NamedValue<'_>>, after: FlexArrayIter<'_>| #[trigger]
                pdf::values_at(between).contains((value, after)) ==> value == Some(
                    entries.first().1,
                ) && reads_only_entries(after, entries.drop_first())
    }
}

/// Whether nothing but these dictionaries can be read from a position on.
pub open spec fn reads_only_dicts(items: FlexArrayIter<'_>, dicts: Seq<Dict<'_>>) -> bool
    decreases dicts.len(),
{
    forall|dict: Option<Dict<'_>>, after: FlexArrayIter<'_>| #[trigger]
        pdf::dicts_at(items).contains((dict, after)) ==> if dicts.len() == 0 {
            dict is None
        } else {
            dict == Some(dicts.first()) && reads_only_dicts(after, dicts.drop_first())
        }
}

/// The dictionaries of the roots of trees.
pub open spec fn root_nodes<'a>(trees: Seq<NameTree<'a>>) -> Seq<Dict<'a>> {
    trees.map_values(|tree: NameTree<'a>| tree.node)
}

/// Whether the dictionary of the root of a tree says what the tree says of its root.
pub open spec fn describes_root(tree: NameTree<'_>) -> bool {
    &&& exists|names: Option<Array<'_>>|
        {
            &&& #[trigger] reads_only(pdf::dict_arrays(tree.node), "Names".spec_bytes(), names)
            &&& names is Some ==> reads_only_entries(pdf::array_start(names->0), tree.entries)
            &&& names is None ==> tree.entries.len() == 0
        }
    &&& exists|kids: Option<Array<'_>>|
        {
            &&& #[trigger] reads_only(pdf::dict_arrays(tree.node), "Kids".spec_bytes(), kids)
            &&& kids is Some ==> reads_only_dicts(pdf::array_start(kids->0), root_nodes(tree.kids))
            &&& kids is None ==> tree.kids.len() == 0
        }
}

/// Whether a value of a name tree is an array, or a dictionary that has it under its key for a
/// destination.
pub open spec fn gives_array(value: NamedValue<'_>, array: Array<'_>) -> bool {
    match value {
        NamedValue::Array(found) => found == array,
        NamedValue::Dict(dict) => reads_only(
            pdf::dict_arrays(dict),
            "D".spec_bytes(),
            Some(array),
        ),
        NamedValue::Other => false,
    }
}

/// Whether the root of a tree has a name.
pub open spec fn root_has_name(tree: NameTree<'_>, name: Seq<u8>) -> bool {
    exists|i: int| 0 <= i < tree.entries.len() && (#[trigger] tree.entries[i]).0 == name
}

/// Whether every dictionary of a tree says what the tree says, and gives this array for a name where
/// it has the name.
pub open spec fn describes_tree(tree: NameTree<'_>, name: Seq<u8>, array: Array<'_>) -> bool
    decreases tree,
{
    &&& describes_root(tree)
    &&& forall|i: int|
        0 <= i < tree.entries.len() && (#[trigger] tree.entries[i]).0 == name ==> gives_array(
            tree.entries[i].1,
            array,
        )
    &&& forall|i: int|
        0 <= i < tree.kids.len() ==> describes_tree(#[trigger] tree.kids[i], name, array)
}

/// Whether a tree has a name, however deep.
pub open spec fn tree_has_name(tree: NameTree<'_>, name: Seq<u8>) -> bool
    decreases tree,
{
    root_has_name(tree, name) || exists|i: int|
        0 <= i < tree.kids.len() && tree_has_name(#[trigger] tree.kids[i], name)
}

/// How many nodes the first `n` children of a tree have together.
pub open spec fn kids_size(tree: NameTree<'_>, n: nat) -> nat
    decreases tree, n,
{
    if n == 0 || n > tree.kids.len() {
        0
    } else {
        kids_size(tree, (n - 1) as nat) + 1 + kids_size(
            tree.kids[n - 1],
            tree.kids[n - 1].kids.len(),
        )
    }
}

/// How many nodes a tree has.
pub open spec fn tree_size(tree: NameTree<'_>) -> nat {
    1 + kids_size(tree, tree.kids.len())
}

/// How many nodes trees have together.
spec fn forest_size(trees: Seq<NameTree<'_>>) -> nat
    decreases trees.len(),
{
    if trees.len() == 0 {
        0
    } else {
        forest_size(trees.drop_last()) + tree_size(trees.last())
    }
}

proof fn lemma_kids_size(tree: NameTree<'_>, n: nat)
    requires
        n <= tree.kids.len(),
    ensures
        kids_size(tree, n) == forest_size(tree.kids.take(n as int)),
    decreases n,
{
    if n > 0 {
        lemma_kids_size(tree, (n - 1) as nat);
        assert(tree.kids.take(n as int).drop_last() =~= tree.kids.take(n - 1));
        assert(tree.kids.take(n as int).last() == tree.kids[n - 1]);
    }
}

proof fn lemma_forest_size(a: Seq<NameTree<'_>>, b: Seq<NameTree<'_>>)
    ensures
        forest_size(a + b) == forest_size(a) + forest_size(b),
    decreases b.len(),
{
    if b.len() == 0 {
        assert(a + b =~= a);
    } else {
        lemma_forest_size(a, b.drop_last());
        assert((a + b).drop_last() =~= a + b.drop_last());
        assert((a + b).last() == b.last());
    }
}

/// Where nothing but some entries can be read, reading until a name comes finds out of them what they
/// say.
proof fn lemma_reads_entries(
    items: FlexArrayIter<'_>,
    known: Seq<(Seq<u8>, NamedValue<'_>)>,
    entries: Seq<(Seq<u8>, NamedValue<'_>)>,
    end: EntriesEnd,
    name: Seq<u8>,
)
    requires
        reads_only_entries(items, known),
        reads_entries(items, entries, end),
        stops_at(entries, end, name),
    ensures
        looked_up(entries, end is Broken, name) == looked_up(known, false, name),
        !(end is Broken),
    decreases entries.len(),
{
    if entries.len() > 0 {
        let (between, after) = choose|between: FlexArrayIter<'_>, after: FlexArrayIter<'_>|
            {
                &&& #[trigger] pdf::strings_at(items).contains((Some(entries.first().0), between))
                &&& #[trigger] pdf::values_at(between).contains((Some(entries.first().1), after))
                &&& reads_entries(after, entries.drop_first(), end)
            };
        assert(known.len() > 0);
        assert(entries.first() == known.first());
        let rest = entries.drop_first();
        assert(reads_only_entries(after, known.drop_first()));
        if entries.first().0 != name {
            assert forall|i: int| 0 <= i < rest.len() - 1 implies (#[trigger] rest[i]).0 != name by {
                assert(rest[i] == entries[i + 1]);
            }
            assert(stops_at(rest, end, name)) by {
                if rest.len() > 0 {
                    assert(rest.last() == entries.last());
                } else {
                    assert(entries.last() == entries.first());
                }
            }
            lemma_reads_entries(after, known.drop_first(), rest, end, name);
        } else {
            if entries.len() > 1 {
                assert(entries[0].0 != name);
            }
        }
    } else {
        match end {
            EntriesEnd::Complete => {
                let after = choose|after: FlexArrayIter<'_>| #[trigger]
                    pdf::strings_at(items).contains((None, after));
                assert(known.len() == 0);
            },
            EntriesEnd::Broken => {
                let (found, between, after) = choose|
                    found: Seq<u8>,
                    between: FlexArrayIter<'_>,
                    after: FlexArrayIter<'_>,
                |
                    {
                        &&& #[trigger] pdf::strings_at(items).contains((Some(found), between))
                        &&& #[trigger] pdf::values_at(between).contains((None, after))
                    };
                assert(known.len() > 0);
                assert(false);
            },
            EntriesEnd::Unread => {},
        }
    }
}

pub(crate) proof fn lemma_reads_dicts(items: FlexArrayIter<'_>, known: Seq<Dict<'_>>, dicts: Seq<Dict<'_>>)
    requires
        reads_only_dicts(items, known),
        reads_dicts(items, dicts),
    ensures
        dicts == known,
    decreases dicts.len(),
{
    if dicts.len() == 0 {
        let after = choose|after: FlexArrayIter<'_>| #[trigger]
            pdf::dicts_at(items).contains((None, after));
        assert(dicts =~= known);
    } else {
        let after = choose|after: FlexArrayIter<'_>| #[trigger]
            pdf::dicts_at(items).contains((Some(dicts.first()), after)) && reads_dicts(
                after,
                dicts.drop_first(),
            );
        assert(known.len() > 0);
        lemma_reads_dicts(after, known.drop_first(), dicts.drop_first());
        assert(dicts =~= seq![dicts.first()] + dicts.drop_first());
        assert(known =~= seq![known.first()] + known.drop_first());
    }
}

/// Looking in the root of a tree finds what the first of its entries with the name says.
proof fn lemma_reads_root(
    tree: NameTree<'_>,
    name: Seq<u8>,
    array: Array<'_>,
    found: NameLookup<NamedValue<'_>>,
)
    requires
        describes_root(tree),
        forall|i: int|
            0 <= i < tree.entries.len() && (#[trigger] tree.entries[i]).0 == name ==> gives_array(
                tree.entries[i].1,
                array,
            ),
        reads_node(tree.node, name, found),
    ensures
        root_has_name(tree, name) ==> (found matches NameLookup::Found(value) && gives_array(
            value,
            array,
        )),
        !root_has_name(tree, name) ==> found is Absent,
{
    let known = choose|names: Option<Array<'_>>|
        {
            &&& #[trigger] reads_only(pdf::dict_arrays(tree.node), "Names".spec_bytes(), names)
            &&& names is Some ==> reads_only_entries(pdf::array_start(names->0), tree.entries)
            &&& names is None ==> tree.entries.len() == 0
        };
    let names = choose|names: Option<Array<'_>>| #[trigger]
        pdf::dict_arrays(tree.node).contains(("Names".spec_bytes(), names)) && match names {
            Some(names) => exists|entries: Seq<(Seq<u8>, NamedValue<'_>)>, broken: bool| #[trigger]
                reads_until(names, name, entries, broken) && found == looked_up(
                    entries,
                    broken,
                    name,
                ),
            None => found == NameLookup::<NamedValue<'_>>::Absent,
        };
    assert(names == known);
    first_entry_of_a_name_counts(tree.entries, false, name);
    if let Some(names) = names {
        let (entries, broken) = choose|entries: Seq<(Seq<u8>, NamedValue<'_>)>, broken: bool|
            #[trigger]
            reads_until(names, name, entries, broken) && found == looked_up(entries, broken, name);
        let end = choose|end: EntriesEnd| #[trigger]
            reads_entries(pdf::array_start(names), entries, end) && stops_at(entries, end, name)
                && broken == (end is Broken);
        lemma_reads_entries(pdf::array_start(names), tree.entries, entries, end, name);
    }
}

proof fn lemma_walk_finds(
    trees: Seq<NameTree<'_>>,
    visited: int,
    name: Seq<u8>,
    array: Array<'_>,
    found: Option<Array<'_>>,
)
    requires
        visited >= 0,
        forest_size(trees) + visited <= MAX_NAME_NODES,
        forall|i: int| 0 <= i < trees.len() ==> describes_tree(#[trigger] trees[i], name, array),
        walk_finds(root_nodes(trees), visited, name, found),
    ensures
        (exists|i: int| 0 <= i < trees.len() && tree_has_name(#[trigger] trees[i], name)) ==> found
            == Some(array),
        !(exists|i: int| 0 <= i < trees.len() && tree_has_name(#[trigger] trees[i], name))
            ==> found is None,
    decreases forest_size(trees),
{
    if trees.len() > 0 {
        let tree = trees.last();
        let pending = root_nodes(trees);
        assert(pending.last() == tree.node);
        assert(describes_tree(trees[trees.len() - 1], name, array));
        let lookup = choose|lookup: NameLookup<NamedValue<'_>>| #[trigger]
            reads_node(pending.last(), name, lookup) && match lookup {
                NameLookup::Found(NamedValue::Array(array)) => found == Some(array),
                NameLookup::Found(NamedValue::Dict(dict)) => {
                    pdf::dict_arrays(dict).contains(("D".spec_bytes(), found))
                },
                NameLookup::Found(NamedValue::Other) => found is None,
                NameLookup::Broken => found is None,
                NameLookup::Absent => exists|children: Seq<Dict<'_>>| #[trigger]
                    reads_children(pending.last(), children) && walk_finds(
                        pending.drop_last() + children,
                        visited + 1,
                        name,
                        found,
                    ),
            };
        lemma_reads_root(tree, name, array, lookup);
        if root_has_name(tree, name) {
            assert(tree_has_name(trees[trees.len() - 1], name));
            assert(found == Some(array));
        } else {
            let children = choose|children: Seq<Dict<'_>>| #[trigger]
                reads_children(pending.last(), children) && walk_finds(
                    pending.drop_last() + children,
                    visited + 1,
                    name,
                    found,
                );
            lemma_reads_children(tree, children);
            let rest = trees.drop_last() + tree.kids;
            assert(root_nodes(rest) =~= pending.drop_last() + children);
            lemma_kids_size(tree, tree.kids.len());
            assert(tree.kids.take(tree.kids.len() as int) =~= tree.kids);
            lemma_forest_size(trees.drop_last(), tree.kids);
            assert forall|i: int| 0 <= i < rest.len() implies describes_tree(
                #[trigger] rest[i],
                name,
                array,
            ) by {
                if i < trees.len() - 1 {
                    assert(rest[i] == trees[i]);
                } else {
                    assert(rest[i] == tree.kids[i - (trees.len() - 1)]);
                }
            }
            lemma_walk_finds(rest, visited + 1, name, array, found);
            if exists|i: int| 0 <= i < trees.len() && tree_has_name(#[trigger] trees[i], name) {
                let i = choose|i: int|
                    0 <= i < trees.len() && tree_has_name(#[trigger] trees[i], name);
                if i < trees.len() - 1 {
                    assert(rest[i] == trees[i]);
                } else {
                    let k = choose|k: int|
                        0 <= k < tree.kids.len() && tree_has_name(#[trigger] tree.kids[k], name);
                    assert(rest[trees.len() - 1 + k] == tree.kids[k]);
                }
            } else {
                assert forall|i: int| 0 <= i < rest.len() implies !tree_has_name(
                    #[trigger] rest[i],
                    name,
                ) by {
                    if i < trees.len() - 1 {
                        assert(rest[i] == trees[i]);
                    } else {
                        assert(rest[i] == tree.kids[i - (trees.len() - 1)]);
                        assert(!tree_has_name(trees[trees.len() - 1], name));
                    }
                }
            }
        }
    }
}

proof fn lemma_reads_children(tree: NameTree<'_>, children: Seq<Dict<'_>>)
    requires
        describes_root(tree),
        reads_children(tree.node, children),
    ensures
        children == root_nodes(tree.kids),
{
    let known = choose|kids: Option<Array<'_>>|
        {
            &&& #[trigger] reads_only(pdf::dict_arrays(tree.node), "Kids".spec_bytes(), kids)
            &&& kids is Some ==> reads_only_dicts(pdf::array_start(kids->0), root_nodes(tree.kids))
            &&& kids is None ==> tree.kids.len() == 0
        };
    let kids = choose|kids: Option<Array<'_>>| #[trigger]
        pdf::dict_arrays(tree.node).contains(("Kids".spec_bytes(), kids)) && match kids {
            Some(kids) => reads_dicts(pdf::array_start(kids), children),
            None => children.len() == 0,
        };
    assert(kids == known);
    match kids {
        Some(kids) => {
            lemma_reads_dicts(pdf::array_start(kids), root_nodes(tree.kids), children);
        },
        None => {
            assert(children =~= root_nodes(tree.kids));
        },
    }
}

/// A name is found wherever it stands in its tree, as long as the tree has no more than 1024 nodes,
/// and what the tree does not have is not found.
pub proof fn names_are_found_wherever_they_stand(
    tree: NameTree<'_>,
    name: Seq<u8>,
    array: Array<'_>,
    found: Option<Array<'_>>,
)
    requires
        describes_tree(tree, name, array),
        tree_size(tree) <= 1024,
        walk_finds(seq![tree.node], 0, name, found),
    ensures
        tree_has_name(tree, name) ==> found == Some(array),
        !tree_has_name(tree, name) ==> found is None,
{
    let trees = seq![tree];
    assert(root_nodes(trees) =~= seq![tree.node]);
    assert(trees.drop_last() =~= Seq::empty());
    assert(forest_size(trees.drop_last()) == 0);
    lemma_walk_finds(trees, 0, name, array, found);
    if tree_has_name(tree, name) {
        assert(trees[0] == tree);
    }
}

/// Whether a value was found under a name: in an array of names and values the name stands directly
/// before the value.
pub open spec fn stands_behind_name(name: Seq<u8>, value: NamedValue<'_>) -> bool {
    exists|items: FlexArrayIter<'_>, between: FlexArrayIter<'_>, after: FlexArrayIter<'_>|
        {
            &&& #[trigger] pdf::strings_at(items).contains((Some(name), between))
            &&& #[trigger] pdf::values_at(between).contains((Some(value), after))
        }
}

proof fn lemma_entries_stand_behind_names(
    items: FlexArrayIter<'_>,
    entries: Seq<(Seq<u8>, NamedValue<'_>)>,
    end: EntriesEnd,
    i: int,
)
    requires
        reads_entries(items, entries, end),
        0 <= i < entries.len(),
    ensures
        stands_behind_name(entries[i].0, entries[i].1),
    decreases entries.len(),
{
    let (between, after) = choose|between: FlexArrayIter<'_>, after: FlexArrayIter<'_>|
        {
            &&& #[trigger] pdf::strings_at(items).contains((Some(entries.first().0), between))
            &&& #[trigger] pdf::values_at(between).contains((Some(entries.first().1), after))
            &&& reads_entries(after, entries.drop_first(), end)
        };
    if i > 0 {
        lemma_entries_stand_behind_names(after, entries.drop_first(), end, i - 1);
        assert(entries.drop_first()[i - 1] == entries[i]);
    }
}

/// What a walk through a name tree finds stands behind the name: it is the value of the name, or is
/// the destination in a dictionary that is the value.
pub proof fn found_destinations_stand_behind_the_name(
    pending: Seq<Dict<'_>>,
    visited: int,
    name: Seq<u8>,
    array: Array<'_>,
)
    requires
        walk_finds(pending, visited, name, Some(array)),
    ensures
        exists|value: NamedValue<'_>| #[trigger]
            stands_behind_name(name, value) && match value {
                NamedValue::Array(found) => found == array,
                NamedValue::Dict(dict) => pdf::dict_arrays(dict).contains(
                    ("D".spec_bytes(), Some(array)),
                ),
                NamedValue::Other => false,
            },
    decreases MAX_NAME_NODES - visited,
{
    let found = Some(array);
    let lookup = choose|lookup: NameLookup<NamedValue<'_>>| #[trigger]
        reads_node(pending.last(), name, lookup) && match lookup {
            NameLookup::Found(NamedValue::Array(array)) => found == Some(array),
            NameLookup::Found(NamedValue::Dict(dict)) => {
                pdf::dict_arrays(dict).contains(("D".spec_bytes(), found))
            },
            NameLookup::Found(NamedValue::Other) => found is None,
            NameLookup::Broken => found is None,
            NameLookup::Absent => exists|children: Seq<Dict<'_>>| #[trigger]
                reads_children(pending.last(), children) && walk_finds(
                    pending.drop_last() + children,
                    visited + 1,
                    name,
                    found,
                ),
        };
    match lookup {
        NameLookup::Found(value) => {
            let names = choose|names: Option<Array<'_>>| #[trigger]
                pdf::dict_arrays(pending.last()).contains(("Names".spec_bytes(), names))
                    && match names {
                    Some(names) => exists|
                        entries: Seq<(Seq<u8>, NamedValue<'_>)>,
                        broken: bool,
                    | #[trigger]
                        reads_until(names, name, entries, broken) && lookup == looked_up(
                            entries,
                            broken,
                            name,
                        ),
                    None => lookup == NameLookup::<NamedValue<'_>>::Absent,
                };
            let (entries, broken) = choose|
                entries: Seq<(Seq<u8>, NamedValue<'_>)>,
                broken: bool,
            | #[trigger]
                reads_until(names->0, name, entries, broken) && lookup == looked_up(
                    entries,
                    broken,
                    name,
                );
            let end = choose|end: EntriesEnd| #[trigger]
                reads_entries(pdf::array_start(names->0), entries, end) && stops_at(
                    entries,
                    end,
                    name,
                ) && broken == (end is Broken);
            first_entry_of_a_name_counts(entries, broken, name);
            let i = choose|i: int|
                0 <= i < entries.len() && (#[trigger] entries[i]).0 == name && entries[i].1
                    == value;
            lemma_entries_stand_behind_names(pdf::array_start(names->0), entries, end, i);
            assert(stands_behind_name(name, value));
        },
        _ => {
            let children = choose|children: Seq<Dict<'_>>| #[trigger]
                reads_children(pending.last(), children) && walk_finds(
                    pending.drop_last() + children,
                    visited + 1,
                    name,
                    found,
                );
            found_destinations_stand_behind_the_name(
                pending.drop_last() + children,
                visited + 1,
                name,
                array,
            );
        },
    }
}

/// Whether the destinations of a catalog have this array under a name, by itself or in a dictionary.
pub open spec fn names_directly(destinations: Dict<'_>, name: Seq<u8>, array: Array<'_>) -> bool {
    ||| reads_only(pdf::dict_arrays(destinations), name, Some(array))
    ||| reads_only(pdf::dict_arrays(destinations), name, None) && exists|holder: Dict<'_>|
        {
            &&& #[trigger] reads_only(pdf::dict_dicts(destinations), name, Some(holder))
            &&& reads_only(pdf::dict_arrays(holder), "D".spec_bytes(), Some(array))
        }
}

/// Whether the destinations of a catalog do not have a name, or have no destination under it.
pub open spec fn lacks_name(destinations: Dict<'_>, name: Seq<u8>) -> bool {
    reads_only(pdf::dict_arrays(destinations), name, None) && exists|holder: Option<Dict<'_>>|
        {
            &&& #[trigger] reads_only(pdf::dict_dicts(destinations), name, holder)
            &&& holder is Some ==> reads_only(pdf::dict_arrays(holder->0), "D".spec_bytes(), None)
        }
}

/// Whether the name tree of a catalog has this array under a name, and has no more than 1024 nodes.
pub open spec fn names_in_tree(catalog: Dict<'_>, name: Seq<u8>, array: Array<'_>) -> bool {
    exists|names: Dict<'_>, tree: NameTree<'_>|
        {
            &&& #[trigger] reads_only(pdf::dict_dicts(catalog), "Names".spec_bytes(), Some(names))
            &&& reads_only(pdf::dict_dicts(names), "Dests".spec_bytes(), Some(tree.node))
            &&& #[trigger] describes_tree(tree, name, array)
            &&& tree_has_name(tree, name)
            &&& tree_size(tree) <= 1024
        }
}

/// Whether a name stands for an array in a document: among the destinations of its catalog, or in the
/// name tree of the catalog where they do not have the name.
pub open spec fn stands_for(document: &Pdf, name: Seq<u8>, array: Array<'_>) -> bool {
    exists|catalog: Dict<'_>, destinations: Option<Dict<'_>>|
        {
            &&& forall|read: Option<Dict<'_>>| #[trigger]
                pdf::catalogs(document).contains(read) ==> read == Some(catalog)
            &&& #[trigger] reads_only(
                pdf::dict_dicts(catalog),
                "Dests".spec_bytes(),
                destinations,
            )
            &&& {
                ||| destinations is Some && names_directly(destinations->0, name, array)
                ||| (destinations is Some ==> lacks_name(destinations->0, name)) && names_in_tree(
                    catalog,
                    name,
                    array,
                )
            }
        }
}

proof fn lemma_reads_direct(
    destinations: Dict<'_>,
    name: Seq<u8>,
    array: Array<'_>,
    found: Option<Array<'_>>,
)
    requires
        reads_direct(destinations, name, found),
    ensures
        names_directly(destinations, name, array) ==> found == Some(array),
        lacks_name(destinations, name) ==> found is None,
{
    let read = choose|read: Option<Array<'_>>| #[trigger]
        pdf::dict_arrays(destinations).contains((name, read)) && if read is Some {
            found == read
        } else {
            exists|dict: Option<Dict<'_>>| #[trigger]
                pdf::dict_dicts(destinations).contains((name, dict)) && match dict {
                    Some(dict) => pdf::dict_arrays(dict).contains(("D".spec_bytes(), found)),
                    None => found is None,
                }
        };
    if read is None {
        let dict = choose|dict: Option<Dict<'_>>| #[trigger]
            pdf::dict_dicts(destinations).contains((name, dict)) && match dict {
                Some(dict) => pdf::dict_arrays(dict).contains(("D".spec_bytes(), found)),
                None => found is None,
            };
        if names_directly(destinations, name, array) && !reads_only(
            pdf::dict_arrays(destinations),
            name,
            Some(array),
        ) {
            let holder = choose|holder: Dict<'_>|
                {
                    &&& #[trigger] reads_only(pdf::dict_dicts(destinations), name, Some(holder))
                    &&& reads_only(pdf::dict_arrays(holder), "D".spec_bytes(), Some(array))
                };
            assert(dict == Some(holder));
        }
        if lacks_name(destinations, name) {
            let holder = choose|holder: Option<Dict<'_>>|
                {
                    &&& #[trigger] reads_only(pdf::dict_dicts(destinations), name, holder)
                    &&& holder is Some ==> reads_only(
                        pdf::dict_arrays(holder->0),
                        "D".spec_bytes(),
                        None,
                    )
                };
            assert(dict == holder);
        }
    }
}

/// A name that stands for an array in a document is found there.
pub proof fn names_give_their_destinations(
    document: &Pdf,
    name: Seq<u8>,
    array: Array<'_>,
    found: Option<Array<'_>>,
)
    requires
        stands_for(document, name, array),
        reads_named(document, name, found),
    ensures
        found == Some(array),
{
    let (catalog, known) = choose|catalog: Dict<'_>, destinations: Option<Dict<'_>>|
        {
            &&& forall|read: Option<Dict<'_>>| #[trigger]
                pdf::catalogs(document).contains(read) ==> read == Some(catalog)
            &&& #[trigger] reads_only(
                pdf::dict_dicts(catalog),
                "Dests".spec_bytes(),
                destinations,
            )
            &&& {
                ||| destinations is Some && names_directly(destinations->0, name, array)
                ||| (destinations is Some ==> lacks_name(destinations->0, name)) && names_in_tree(
                    catalog,
                    name,
                    array,
                )
            }
        };
    let root = choose|root: Option<Dict<'_>>| #[trigger]
        pdf::catalogs(document).contains(root) && match root {
            Some(catalog) => reads_catalog(catalog, name, found),
            None => found is None,
        };
    assert(root == Some(catalog));
    let destinations = choose|destinations: Option<Dict<'_>>| #[trigger]
        pdf::dict_dicts(catalog).contains(("Dests".spec_bytes(), destinations)) && {
            ||| destinations is Some && found is Some && reads_direct(destinations->0, name, found)
            ||| (destinations is Some ==> reads_direct(destinations->0, name, None)) && reads_tree(
                catalog,
                name,
                found,
            )
        };
    assert(destinations == known);
    if destinations is Some {
        if found is Some && reads_direct(destinations->0, name, found) {
            lemma_reads_direct(destinations->0, name, array, found);
        }
        if reads_direct(destinations->0, name, None) {
            lemma_reads_direct(destinations->0, name, array, None);
        }
    }
    if found != Some(array) {
        assert(reads_tree(catalog, name, found));
        assert(names_in_tree(catalog, name, array));
        let (names, tree) = choose|names: Dict<'_>, tree: NameTree<'_>|
            {
                &&& #[trigger] reads_only(
                    pdf::dict_dicts(catalog),
                    "Names".spec_bytes(),
                    Some(names),
                )
                &&& reads_only(pdf::dict_dicts(names), "Dests".spec_bytes(), Some(tree.node))
                &&& #[trigger] describes_tree(tree, name, array)
                &&& tree_has_name(tree, name)
                &&& tree_size(tree) <= 1024
            };
        let read = choose|read: Option<Dict<'_>>| #[trigger]
            pdf::dict_dicts(catalog).contains(("Names".spec_bytes(), read)) && match read {
                Some(names) => exists|root: Option<Dict<'_>>| #[trigger]
                    pdf::dict_dicts(names).contains(("Dests".spec_bytes(), root)) && match root {
                        Some(root) => walk_finds(seq![root], 0, name, found),
                        None => found is None,
                    },
                None => found is None,
            };
        assert(read == Some(names));
        let top = choose|top: Option<Dict<'_>>| #[trigger]
            pdf::dict_dicts(names).contains(("Dests".spec_bytes(), top)) && match top {
                Some(root) => walk_finds(seq![root], 0, name, found),
                None => found is None,
            };
        assert(top == Some(tree.node));
        names_are_found_wherever_they_stand(tree, name, array, found);
    }
}

/// What an annotation says of where it leads: by its action, and by itself.
#[verifier::ext_equal]
pub struct LinkSays<'a> {
    pub action: Option<Dict<'a>>,
    /// The type of the action and the address that it has.
    pub action_type: Option<Seq<u8>>,
    pub uri: Option<Seq<u8>>,
    /// The destination of the action.
    pub own: EntryView<Array<'a>>,
    /// The destination of the annotation itself.
    pub link: EntryView<Array<'a>>,
}

/// Whether a dictionary has nothing but this under the key of a destination.
pub open spec fn has_destination(
    dict: Dict<'_>,
    key: Seq<u8>,
    entry: EntryView<Array<'_>>,
) -> bool {
    &&& reads_only(pdf::dict_arrays(dict), key, entry.array)
    &&& reads_only(pdf::dict_names(dict), key, entry.name)
    &&& reads_only(pdf::dict_strings(dict), key, entry.string)
}

/// Whether an annotation says this and nothing else.
pub open spec fn annotation_says(annotation: Dict<'_>, says: LinkSays<'_>) -> bool {
    &&& reads_only(pdf::dict_dicts(annotation), "A".spec_bytes(), says.action)
    &&& has_destination(annotation, "Dest".spec_bytes(), says.link)
    &&& match says.action {
        Some(action) => {
            &&& reads_only(pdf::dict_names(action), "S".spec_bytes(), says.action_type)
            &&& reads_only(pdf::dict_strings(action), "URI".spec_bytes(), says.uri)
            &&& has_destination(action, "D".spec_bytes(), says.own)
        },
        None => {
            &&& says.action_type is None
            &&& says.uri is None
            &&& says.own == EntryView::<Array<'_>> { array: None, name: None, string: None }
        },
    }
}

/// Whether an annotation is a link that is shown, with this rectangle.
pub open spec fn is_shown_link(annotation: Dict<'_>, rect: Rect) -> bool {
    &&& reads_only(
        pdf::dict_names(annotation),
        "Subtype".spec_bytes(),
        Some("Link".spec_bytes()),
    )
    &&& forall|flags: Option<u32>| #[trigger]
        pdf::dict_numbers(annotation).contains(("F".spec_bytes(), flags)) && flags is Some
            ==> flags->0 & 2 == 0 && flags->0 & 32 == 0
    &&& reads_only(pdf::dict_rects(annotation), "Rect".spec_bytes(), Some(rect))
}

/// Whether a link says that it opens an address.
pub open spec fn says_address(says: LinkSays<'_>) -> bool {
    says.action_type == Some("URI".spec_bytes()) && says.uri is Some
}

/// What a link leads to, where what it says is known: the address, the first array, or else the first
/// name or string.
proof fn lemma_target(
    annotation: Dict<'_>,
    says: LinkSays<'_>,
    dict: Option<Dict<'_>>,
    action: Option<ActionView<Array<'_>>>,
    link: EntryView<Array<'_>>,
)
    requires
        annotation_says(annotation, says),
        pdf::dict_dicts(annotation).contains(("A".spec_bytes(), dict)),
        reads_in_order(annotation, dict, action, link),
    ensures
        ({
            let target = target_of(action, link);
            let array = first_of(says.own.array, says.link.array);
            let name = first_of(
                first_of(says.own.name, says.link.name),
                first_of(says.own.string, says.link.string),
            );
            &&& says_address(says) ==> target == Some(TargetView::<Array<'_>>::Url(lossy_text(says.uri->0)))
            &&& !says_address(says) && array is Some ==> target == Some(TargetView::Array(array->0))
            &&& !says_address(says) && array is None && name is Some ==> target == Some(
                TargetView::<Array<'_>>::Named(name->0),
            )
            &&& !says_address(says) && array is None && name is None ==> target is None
        }),
{
    assert(dict == says.action);
}

proof fn lemma_shown_link(
    document: &Pdf,
    index: int,
    annotation: Dict<'_>,
    rect: Rect,
    link: Option<LinkReading>,
)
    requires
        is_shown_link(annotation, rect),
        reads_link(document, index, annotation, link),
    ensures
        exists|destination: Option<DestinationView>| #[trigger]
            reads_destination(document, annotation, destination) && match destination {
                None => link is None,
                Some(destination) => {
                    &&& link is Some
                    &&& link->0.destination == destination
                    &&& pdf::device_rects(document, index, rect).contains(link->0.bounds)
                },
            },
{
    let (subtype, flags) = choose|subtype: Option<Seq<u8>>, flags: Option<u32>|
        {
            &&& #[trigger] pdf::dict_names(annotation).contains(("Subtype".spec_bytes(), subtype))
            &&& #[trigger] reads_flags(annotation, subtype, flags)
            &&& if visible_link(subtype, flags) {
                exists|rect: Option<Rect>| #[trigger]
                    pdf::dict_rects(annotation).contains(("Rect".spec_bytes(), rect))
                        && reads_place(document, index, annotation, rect, link)
            } else {
                link is None
            }
        };
    assert(visible_link(subtype, None));
    assert(pdf::dict_numbers(annotation).contains(("F".spec_bytes(), flags)));
    if flags is Some {
        let bits = flags->0;
        assert(bits & 34 == 0) by (bit_vector)
            requires
                bits & 2 == 0,
                bits & 32 == 0,
        ;
    }
    let read = choose|read: Option<Rect>| #[trigger]
        pdf::dict_rects(annotation).contains(("Rect".spec_bytes(), read)) && reads_place(
            document,
            index,
            annotation,
            read,
            link,
        );
    assert(read == Some(rect));
}

/// A link whose action opens an address leads there, whatever else it says.
pub proof fn addresses_are_opened(
    document: &Pdf,
    index: int,
    annotation: Dict<'_>,
    rect: Rect,
    says: LinkSays<'_>,
    link: Option<LinkReading>,
)
    requires
        is_shown_link(annotation, rect),
        annotation_says(annotation, says),
        says.action_type == Some("URI".spec_bytes()),
        says.uri is Some,
        reads_link(document, index, annotation, link),
    ensures
        link is Some,
        link->0.destination == DestinationView::Url(lossy_text(says.uri->0)),
        pdf::device_rects(document, index, rect).contains(link->0.bounds),
{
    lemma_shown_link(document, index, annotation, rect, link);
    let destination = choose|destination: Option<DestinationView>| #[trigger]
        reads_destination(document, annotation, destination) && match destination {
            None => link is None,
            Some(destination) => {
                &&& link is Some
                &&& link->0.destination == destination
                &&& pdf::device_rects(document, index, rect).contains(link->0.bounds)
            },
        };
    let (dict, action, own) = choose|
        dict: Option<Dict<'_>>,
        action: Option<ActionView<Array<'_>>>,
        own: EntryView<Array<'_>>,
    |
        {
            &&& pdf::dict_dicts(annotation).contains(("A".spec_bytes(), dict))
            &&& #[trigger] reads_in_order(annotation, dict, action, own)
            &&& reads_target(document, target_of(action, own), destination)
        };
    lemma_target(annotation, says, dict, action, own);
}

/// A link without an address that has an array as its destination leads to the page that the array
/// starts with. The array of its action, under the key D, goes before its own, under the key Dest.
pub proof fn arrays_lead_to_their_page(
    document: &Pdf,
    index: int,
    annotation: Dict<'_>,
    rect: Rect,
    says: LinkSays<'_>,
    array: Array<'_>,
    page: int,
    link: Option<LinkReading>,
)
    requires
        is_shown_link(annotation, rect),
        annotation_says(annotation, says),
        !(says.action_type == Some("URI".spec_bytes()) && says.uri is Some),
        says.own.array == Some(array) || (says.own.array is None && says.link.array == Some(array)),
        starts_with_page(document, array, page),
        reads_link(document, index, annotation, link),
    ensures
        link is Some,
        link->0.destination == DestinationView::Page(page),
        pdf::device_rects(document, index, rect).contains(link->0.bounds),
{
    lemma_shown_link(document, index, annotation, rect, link);
    let destination = choose|destination: Option<DestinationView>| #[trigger]
        reads_destination(document, annotation, destination) && match destination {
            None => link is None,
            Some(destination) => {
                &&& link is Some
                &&& link->0.destination == destination
                &&& pdf::device_rects(document, index, rect).contains(link->0.bounds)
            },
        };
    let (dict, action, own) = choose|
        dict: Option<Dict<'_>>,
        action: Option<ActionView<Array<'_>>>,
        own: EntryView<Array<'_>>,
    |
        {
            &&& pdf::dict_dicts(annotation).contains(("A".spec_bytes(), dict))
            &&& #[trigger] reads_in_order(annotation, dict, action, own)
            &&& reads_target(document, target_of(action, own), destination)
        };
    lemma_target(annotation, says, dict, action, own);
    destinations_lead_to_their_page(document, array, page, destination);
}

/// A link without an address or an array leads to the page of the destination that it names, if the
/// document has the name. The name of its action goes before its own, and both before a string, of
/// which again that of its action goes first.
pub proof fn names_lead_to_their_page(
    document: &Pdf,
    index: int,
    annotation: Dict<'_>,
    rect: Rect,
    says: LinkSays<'_>,
    name: Seq<u8>,
    array: Array<'_>,
    page: int,
    link: Option<LinkReading>,
)
    requires
        is_shown_link(annotation, rect),
        annotation_says(annotation, says),
        !(says.action_type == Some("URI".spec_bytes()) && says.uri is Some),
        says.own.array is None,
        says.link.array is None,
        ({
            ||| says.own.name == Some(name)
            ||| says.own.name is None && says.link.name == Some(name)
            ||| says.own.name is None && says.link.name is None && says.own.string == Some(name)
            ||| says.own.name is None && says.link.name is None && says.own.string is None
                && says.link.string == Some(name)
        }),
        stands_for(document, name, array),
        starts_with_page(document, array, page),
        reads_link(document, index, annotation, link),
    ensures
        link is Some,
        link->0.destination == DestinationView::Page(page),
        pdf::device_rects(document, index, rect).contains(link->0.bounds),
{
    lemma_shown_link(document, index, annotation, rect, link);
    let destination = choose|destination: Option<DestinationView>| #[trigger]
        reads_destination(document, annotation, destination) && match destination {
            None => link is None,
            Some(destination) => {
                &&& link is Some
                &&& link->0.destination == destination
                &&& pdf::device_rects(document, index, rect).contains(link->0.bounds)
            },
        };
    let (dict, action, own) = choose|
        dict: Option<Dict<'_>>,
        action: Option<ActionView<Array<'_>>>,
        own: EntryView<Array<'_>>,
    |
        {
            &&& pdf::dict_dicts(annotation).contains(("A".spec_bytes(), dict))
            &&& #[trigger] reads_in_order(annotation, dict, action, own)
            &&& reads_target(document, target_of(action, own), destination)
        };
    lemma_target(annotation, says, dict, action, own);
    let found = choose|found: Option<Array<'_>>|
        #![trigger reads_named(document, name, found)]
        reads_named(document, name, found) && reads_found(document, found, destination);
    names_give_their_destinations(document, name, array, found);
    destinations_lead_to_their_page(document, array, page, destination);
}

/// What is no link, is hidden, has no place or leads nowhere gives no link.
pub proof fn other_annotations_give_no_link(
    document: &Pdf,
    index: int,
    annotation: Dict<'_>,
    says: LinkSays<'_>,
    link: Option<LinkReading>,
)
    requires
        reads_link(document, index, annotation, link),
        ({
            ||| forall|subtype: Option<Seq<u8>>| #[trigger]
                pdf::dict_names(annotation).contains(("Subtype".spec_bytes(), subtype)) ==> subtype
                    != Some("Link".spec_bytes())
            ||| forall|flags: Option<u32>| #[trigger]
                pdf::dict_numbers(annotation).contains(("F".spec_bytes(), flags)) ==> flags is Some
                    && (flags->0 & 2 != 0 || flags->0 & 32 != 0)
            ||| reads_only(pdf::dict_rects(annotation), "Rect".spec_bytes(), None)
            ||| annotation_says(annotation, says) && says.uri is None && says.own.array is None
                && says.own.name is None && says.own.string is None && says.link.array is None
                && says.link.name is None && says.link.string is None
        }),
    ensures
        link is None,
{
    if link is Some {
        let (subtype, flags) = choose|subtype: Option<Seq<u8>>, flags: Option<u32>|
            {
                &&& #[trigger] pdf::dict_names(annotation).contains(
                    ("Subtype".spec_bytes(), subtype),
                )
                &&& #[trigger] reads_flags(annotation, subtype, flags)
                &&& if visible_link(subtype, flags) {
                    exists|rect: Option<Rect>| #[trigger]
                        pdf::dict_rects(annotation).contains(("Rect".spec_bytes(), rect))
                            && reads_place(document, index, annotation, rect, link)
                } else {
                    link is None
                }
            };
        assert(visible_link(subtype, None));
        assert(pdf::dict_numbers(annotation).contains(("F".spec_bytes(), flags)));
        if flags is Some {
            let bits = flags->0;
            assert(bits & 2 == 0 && bits & 32 == 0) by (bit_vector)
                requires
                    bits & 34 == 0,
            ;
        }
        let read = choose|read: Option<Rect>| #[trigger]
            pdf::dict_rects(annotation).contains(("Rect".spec_bytes(), read)) && reads_place(
                document,
                index,
                annotation,
                read,
                link,
            );
        let destination = choose|destination: Option<DestinationView>| #[trigger]
            reads_destination(document, annotation, destination) && match destination {
                None => link is None,
                Some(destination) => {
                    &&& link is Some
                    &&& link->0.destination == destination
                    &&& pdf::device_rects(document, index, read->0).contains(link->0.bounds)
                },
            };
        let (dict, action, own) = choose|
            dict: Option<Dict<'_>>,
            action: Option<ActionView<Array<'_>>>,
            own: EntryView<Array<'_>>,
        |
            {
                &&& pdf::dict_dicts(annotation).contains(("A".spec_bytes(), dict))
                &&& #[trigger] reads_in_order(annotation, dict, action, own)
                &&& reads_target(document, target_of(action, own), destination)
            };
        lemma_target(annotation, says, dict, action, own);
    }
}

/// A link that is read is in the document: it belongs to an annotation that is a link and is not
/// hidden, stands where the annotation says, and leads to the address of its action or to a page that
/// the document has.
pub proof fn links_are_in_the_document(
    document: &Pdf,
    index: int,
    annotation: Dict<'_>,
    link: LinkReading,
)
    requires
        reads_link(document, index, annotation, Some(link)),
    ensures
        pdf::dict_names(annotation).contains(("Subtype".spec_bytes(), Some("Link".spec_bytes()))),
        exists|flags: Option<u32>| #[trigger]
            pdf::dict_numbers(annotation).contains(("F".spec_bytes(), flags)) && (flags is Some
                ==> flags->0 & 2 == 0 && flags->0 & 32 == 0),
        exists|rect: Rect| #[trigger]
            pdf::dict_rects(annotation).contains(("Rect".spec_bytes(), Some(rect)))
                && pdf::device_rects(document, index, rect).contains(link.bounds),
        match link.destination {
            DestinationView::Url(url) => exists|action: Dict<'_>, uri: Seq<u8>|
                {
                    &&& pdf::dict_dicts(annotation).contains(("A".spec_bytes(), Some(action)))
                    &&& pdf::dict_names(action).contains(
                        ("S".spec_bytes(), Some("URI".spec_bytes())),
                    )
                    &&& #[trigger] pdf::dict_strings(action).contains(
                        ("URI".spec_bytes(), Some(uri)),
                    )
                    &&& url == lossy_text(uri)
                },
            DestinationView::Page(page) => {
                &&& 0 <= page < pdf::document_dicts(document).len()
                &&& exists|array: Array<'_>, dict: Dict<'_>, after: FlexArrayIter<'_>| #[trigger]
                    pdf::dicts_at(pdf::array_start(array)).contains((Some(dict), after))
                        && pdf::dict_object(dict) is Some && pdf::dict_object(dict)
                        == pdf::dict_object(pdf::document_dicts(document)[page])
            },
        },
{
    let reading = Some(link);
    let (subtype, flags) = choose|subtype: Option<Seq<u8>>, flags: Option<u32>|
        {
            &&& #[trigger] pdf::dict_names(annotation).contains(("Subtype".spec_bytes(), subtype))
            &&& #[trigger] reads_flags(annotation, subtype, flags)
            &&& if visible_link(subtype, flags) {
                exists|rect: Option<Rect>| #[trigger]
                    pdf::dict_rects(annotation).contains(("Rect".spec_bytes(), rect))
                        && reads_place(document, index, annotation, rect, reading)
            } else {
                reading is None
            }
        };
    assert(visible_link(subtype, None));
    assert(pdf::dict_numbers(annotation).contains(("F".spec_bytes(), flags)));
    if flags is Some {
        let bits = flags->0;
        assert(bits & 2 == 0 && bits & 32 == 0) by (bit_vector)
            requires
                bits & 34 == 0,
        ;
    }
    let rect = choose|rect: Option<Rect>| #[trigger]
        pdf::dict_rects(annotation).contains(("Rect".spec_bytes(), rect)) && reads_place(
            document,
            index,
            annotation,
            rect,
            reading,
        );
    assert(pdf::dict_rects(annotation).contains(("Rect".spec_bytes(), Some(rect->0))));
    let destination = Some(link.destination);
    assert(reads_destination(document, annotation, destination));
    let (dict, action, own) = choose|
        dict: Option<Dict<'_>>,
        action: Option<ActionView<Array<'_>>>,
        own: EntryView<Array<'_>>,
    |
        {
            &&& pdf::dict_dicts(annotation).contains(("A".spec_bytes(), dict))
            &&& #[trigger] reads_in_order(annotation, dict, action, own)
            &&& reads_target(document, target_of(action, own), destination)
        };
    match target_of(action, own) {
        Some(TargetView::Url(url)) => {
            assert(pdf::dict_strings(dict->0).contains(
                ("URI".spec_bytes(), Some(action->0.uri->0)),
            ));
        },
        Some(TargetView::Array(array)) => {
            lemma_pages_are_in_the_document(document, array, destination);
        },
        Some(TargetView::Named(name)) => {
            let found = choose|found: Option<Array<'_>>|
                #![trigger reads_named(document, name, found)]
                reads_named(document, name, found) && reads_found(document, found, destination);
            lemma_pages_are_in_the_document(document, found->0, destination);
        },
        None => {},
    }
}

proof fn lemma_pages_are_in_the_document(
    document: &Pdf,
    array: Array<'_>,
    destination: Option<DestinationView>,
)
    requires
        reads_array(document, array, destination),
        destination is Some,
    ensures
        destination->0 matches DestinationView::Page(page) && 0 <= page < pdf::document_dicts(
            document,
        ).len() && exists|dict: Dict<'_>, after: FlexArrayIter<'_>| #[trigger]
            pdf::dicts_at(pdf::array_start(array)).contains((Some(dict), after))
                && pdf::dict_object(dict) is Some && pdf::dict_object(dict) == pdf::dict_object(
                pdf::document_dicts(document)[page],
            ),
{
    let read = choose|read: Option<int>| #[trigger]
        reads_page(document, array, read) && destination == to_page_view(read);
    let (dict, after) = choose|dict: Option<Dict<'_>>, after: FlexArrayIter<'_>| #[trigger]
        pdf::dicts_at(pdf::array_start(array)).contains((dict, after)) && read == page_of_dict(
            document,
            dict,
        );
    objects_have_their_first_page(pdf::page_objects(document), pdf::dict_object(dict->0)->0);
    assert(pdf::dicts_at(pdf::array_start(array)).contains((Some(dict->0), after)));
}

/// What is known of where a link leads is the address or the page.
pub proof fn destinations_hide_nothing(destination: LinkDestination)
    ensures
        destination matches LinkDestination::Url(url) ==> destination@ == DestinationView::Url(url@),
        destination matches LinkDestination::Page(page) ==> destination@ == DestinationView::Page(
            page as int,
        ),
        destination_of(None) is None,
        destination_of(Some(destination)) == Some(destination@),
{
}

/// Of what a link and its action say, an address goes before an array, an array before a name, a name
/// before a string, and what the action says before what the link says.
pub proof fn targets_have_an_order<A>(action: Option<ActionView<A>>, link: EntryView<A>)
    ensures
        ({
            let own = match action {
                Some(action) => action.destination,
                None => EntryView { array: None, name: None, string: None },
            };
            let target = target_of(action, link);
            if action matches Some(action) && action.action_type == Some("URI".spec_bytes())
                && action.uri is Some {
                target == Some(TargetView::<A>::Url(lossy_text(action->0.uri->0)))
            } else if own.array is Some {
                target == Some(TargetView::Array(own.array->0))
            } else if link.array is Some {
                target == Some(TargetView::Array(link.array->0))
            } else if own.name is Some {
                target == Some(TargetView::<A>::Named(own.name->0))
            } else if link.name is Some {
                target == Some(TargetView::<A>::Named(link.name->0))
            } else if own.string is Some {
                target == Some(TargetView::<A>::Named(own.string->0))
            } else if link.string is Some {
                target == Some(TargetView::<A>::Named(link.string->0))
            } else {
                target is None
            }
        }),
{
}

/// A search ends after 1024 nodes, even where the children of a node lead back to it.
pub proof fn endless_trees_are_given_up(
    pending: Seq<Dict<'_>>,
    name: Seq<u8>,
    found: Option<Array<'_>>,
)
    requires
        walk_finds(pending, 1024, name, found),
    ensures
        found is None,
{
}

/// What is known of a link that was read is its place and where it leads, and of one that was not
/// read nothing.
pub proof fn readings_hide_nothing(bounds: DeviceRect, destination: LinkDestination, page: usize)
    ensures
        reading_of(Some((bounds, destination))) matches Some(reading) && reading.bounds == bounds
            && reading.destination == destination@,
        reading_of(None) is None,
        page_number(Some(page)) == Some(page as int),
        page_number(None) is None,
        to_page_view(Some(page as int)) == Some(DestinationView::Page(page as int)),
        to_page_view(None) is None,
{
}

/// What is known of an action and of a target is all that they hold.
pub proof fn actions_hide_nothing<A>(action: LinkAction<A>, target: LinkTarget<A>)
    ensures
        action_of(Some(action)) == Some(action@),
        action_of::<A>(None) is None,
        action@.action_type == pdf::bytes_of(action.action_type),
        action@.uri == pdf::bytes_of(action.uri),
        action@.destination.array == action.destination.array,
        action@.destination.name == pdf::bytes_of(action.destination.name),
        action@.destination.string == pdf::bytes_of(action.destination.string),
        target_view(Some(target)) == Some(target@),
        target_view::<A>(None) is None,
        target matches LinkTarget::Url(url) ==> target@ == TargetView::<A>::Url(url@),
        target matches LinkTarget::Array(array) ==> target@ == TargetView::Array(array),
        target matches LinkTarget::Named(name) ==> target@ == TargetView::<A>::Named(name@),
{
}

/// What is known of the entries of a node are their names and values, in their order.
pub proof fn entries_hide_nothing<V>(entries: Seq<(Vec<u8>, V)>, i: int)
    requires
        0 <= i < entries.len(),
    ensures
        entry_views(entries).len() == entries.len(),
        entry_views(entries)[i].0 == entries[i].0@,
        entry_views(entries)[i].1 == entries[i].1,
{
}

/// Whether nothing but these names and values can be read from a position on, and then a name that has
/// no value.
pub open spec fn breaks_off_after(
    items: FlexArrayIter<'_>,
    entries: Seq<(Seq<u8>, NamedValue<'_>)>,
) -> bool
    decreases entries.len(),
{
    forall|name: Option<Seq<u8>>, between: FlexArrayIter<'_>| #[trigger]
        pdf::strings_at(items).contains((name, between)) ==> {
            &&& name is Some
            &&& entries.len() > 0 ==> name == Some(entries.first().0)
            &&& forall|value: Option<NamedValue<'_>>, after: FlexArrayIter<'_>| #[trigger]
                pdf::values_at(between).contains((value, after)) ==> if entries.len() == 0 {
                    value is None
                } else {
                    value == Some(entries.first().1) && breaks_off_after(
                        after,
                        entries.drop_first(),
                    )
                }
        }
}

proof fn lemma_breaks_off(
    items: FlexArrayIter<'_>,
    known: Seq<(Seq<u8>, NamedValue<'_>)>,
    entries: Seq<(Seq<u8>, NamedValue<'_>)>,
    end: EntriesEnd,
    name: Seq<u8>,
)
    requires
        breaks_off_after(items, known),
        reads_entries(items, entries, end),
        stops_at(entries, end, name),
        forall|i: int| 0 <= i < known.len() ==> (#[trigger] known[i]).0 != name,
    ensures
        looked_up(entries, end is Broken, name) is Broken,
    decreases entries.len(),
{
    if entries.len() > 0 {
        let (between, after) = choose|between: FlexArrayIter<'_>, after: FlexArrayIter<'_>|
            {
                &&& #[trigger] pdf::strings_at(items).contains((Some(entries.first().0), between))
                &&& #[trigger] pdf::values_at(between).contains((Some(entries.first().1), after))
                &&& reads_entries(after, entries.drop_first(), end)
            };
        assert(known.len() > 0);
        assert(entries.first() == known.first());
        assert(known[0].0 != name);
        let rest = entries.drop_first();
        let known_rest = known.drop_first();
        assert(breaks_off_after(after, known_rest));
        assert forall|i: int| 0 <= i < known_rest.len() implies (#[trigger] known_rest[i]).0
            != name by {
            assert(known_rest[i] == known[i + 1]);
        }
        assert forall|i: int| 0 <= i < rest.len() - 1 implies (#[trigger] rest[i]).0 != name by {
            assert(rest[i] == entries[i + 1]);
        }
        assert(stops_at(rest, end, name)) by {
            if rest.len() > 0 {
                assert(rest.last() == entries.last());
            } else {
                assert(entries.last() == entries.first());
            }
        }
        lemma_breaks_off(after, known_rest, rest, end, name);
    } else {
        assert(!(end is Unread));
        if end is Complete {
            let after = choose|after: FlexArrayIter<'_>| #[trigger]
                pdf::strings_at(items).contains((None, after));
            assert(false);
        }
    }
}

/// A search ends without a result at a node of which the names and values break off before the name
/// comes.
pub proof fn broken_nodes_end_the_search(
    pending: Seq<Dict<'_>>,
    visited: int,
    names: Array<'_>,
    entries: Seq<(Seq<u8>, NamedValue<'_>)>,
    name: Seq<u8>,
    found: Option<Array<'_>>,
)
    requires
        pending.len() > 0,
        reads_only(pdf::dict_arrays(pending.last()), "Names".spec_bytes(), Some(names)),
        breaks_off_after(pdf::array_start(names), entries),
        forall|i: int| 0 <= i < entries.len() ==> (#[trigger] entries[i]).0 != name,
        walk_finds(pending, visited, name, found),
    ensures
        found is None,
{
    if visited < MAX_NAME_NODES {
        let lookup = lemma_walk_looks(pending, visited, name, found);
        let read = lemma_node_looks(pending.last(), Some(names), name, lookup);
        let end = choose|end: EntriesEnd| #[trigger]
            reads_entries(pdf::array_start(names), read.0, end) && stops_at(read.0, end, name)
                && read.1 == (end is Broken);
        lemma_breaks_off(pdf::array_start(names), entries, read.0, end, name);
    }
}

proof fn lemma_walk_looks<'a>(
    pending: Seq<Dict<'a>>,
    visited: int,
    name: Seq<u8>,
    found: Option<Array<'a>>,
) -> (lookup: NameLookup<NamedValue<'a>>)
    requires
        pending.len() > 0,
        visited < MAX_NAME_NODES,
        walk_finds(pending, visited, name, found),
    ensures
        reads_node(pending.last(), name, lookup),
        match lookup {
            NameLookup::Found(NamedValue::Array(array)) => found == Some(array),
            NameLookup::Found(NamedValue::Dict(dict)) => {
                pdf::dict_arrays(dict).contains(("D".spec_bytes(), found))
            },
            NameLookup::Found(NamedValue::Other) => found is None,
            NameLookup::Broken => found is None,
            NameLookup::Absent => true,
        },
{
    choose|lookup: NameLookup<NamedValue<'a>>| #[trigger]
        reads_node(pending.last(), name, lookup) && match lookup {
            NameLookup::Found(NamedValue::Array(array)) => found == Some(array),
            NameLookup::Found(NamedValue::Dict(dict)) => {
                pdf::dict_arrays(dict).contains(("D".spec_bytes(), found))
            },
            NameLookup::Found(NamedValue::Other) => found is None,
            NameLookup::Broken => found is None,
            NameLookup::Absent => exists|children: Seq<Dict<'_>>| #[trigger]
                reads_children(pending.last(), children) && walk_finds(
                    pending.drop_last() + children,
                    visited + 1,
                    name,
                    found,
                ),
        }
}

proof fn lemma_node_looks<'a>(
    node: Dict<'a>,
    known: Option<Array<'a>>,
    name: Seq<u8>,
    lookup: NameLookup<NamedValue<'a>>,
) -> (read: (Seq<(Seq<u8>, NamedValue<'a>)>, bool))
    requires
        reads_only(pdf::dict_arrays(node), "Names".spec_bytes(), known),
        reads_node(node, name, lookup),
    ensures
        known matches Some(names) ==> reads_until(names, name, read.0, read.1) && lookup
            == looked_up(read.0, read.1, name),
        known is None ==> lookup is Absent,
{
    let names = choose|names: Option<Array<'_>>| #[trigger]
        pdf::dict_arrays(node).contains(("Names".spec_bytes(), names)) && match names {
            Some(names) => exists|entries: Seq<(Seq<u8>, NamedValue<'_>)>, broken: bool| #[trigger]
                reads_until(names, name, entries, broken) && lookup == looked_up(
                    entries,
                    broken,
                    name,
                ),
            None => lookup == NameLookup::<NamedValue<'_>>::Absent,
        };
    assert(names == known);
    if let Some(names) = names {
        choose|entries: Seq<(Seq<u8>, NamedValue<'a>)>, broken: bool| #[trigger]
            reads_until(names, name, entries, broken) && lookup == looked_up(entries, broken, name)
    } else {
        (Seq::empty(), false)
    }
}

/// A name whose first value is no destination is not looked for any further.
pub proof fn names_without_destination_end_the_search(
    pending: Seq<Dict<'_>>,
    visited: int,
    names: Array<'_>,
    entries: Seq<(Seq<u8>, NamedValue<'_>)>,
    place: int,
    name: Seq<u8>,
    found: Option<Array<'_>>,
)
    requires
        pending.len() > 0,
        reads_only(pdf::dict_arrays(pending.last()), "Names".spec_bytes(), Some(names)),
        reads_only_entries(pdf::array_start(names), entries),
        0 <= place < entries.len(),
        entries[place].0 == name,
        forall|i: int| 0 <= i < place ==> (#[trigger] entries[i]).0 != name,
        match entries[place].1 {
            NamedValue::Other => true,
            NamedValue::Dict(dict) => reads_only(pdf::dict_arrays(dict), "D".spec_bytes(), None),
            NamedValue::Array(_) => false,
        },
        walk_finds(pending, visited, name, found),
    ensures
        found is None,
{
    if visited < MAX_NAME_NODES {
        let lookup = lemma_walk_looks(pending, visited, name, found);
        let read = lemma_node_looks(pending.last(), Some(names), name, lookup);
        let end = choose|end: EntriesEnd| #[trigger]
            reads_entries(pdf::array_start(names), read.0, end) && stops_at(read.0, end, name)
                && read.1 == (end is Broken);
        lemma_reads_entries(pdf::array_start(names), entries, read.0, end, name);
        first_entry_of_a_name_counts(entries, false, name);
        match looked_up(entries, false, name) {
            NameLookup::Found(value) => {
                let i = choose|i: int|
                    {
                        &&& 0 <= i < entries.len()
                        &&& (#[trigger] entries[i]).0 == name
                        &&& entries[i].1 == value
                        &&& forall|j: int| 0 <= j < i ==> (#[trigger] entries[j]).0 != name
                    };
                assert(i == place);
            },
            _ => {
                assert(entries[place].0 != name);
            },
        }
    }
}

/// Whether a name stands for nothing in a document: it has no catalog, or neither the destinations of
/// the catalog nor its name tree have the name.
pub open spec fn stands_for_nothing(document: &Pdf, name: Seq<u8>) -> bool {
    forall|root: Option<Dict<'_>>| #[trigger]
        pdf::catalogs(document).contains(root) && root is Some ==> {
            let catalog = root->0;
            &&& forall|read: Option<Dict<'_>>| #[trigger]
                pdf::dict_dicts(catalog).contains(("Dests".spec_bytes(), read)) && read is Some
                    ==> lacks_name(read->0, name)
            &&& forall|names: Option<Dict<'_>>, top: Option<Dict<'_>>|
                #![trigger pdf::dict_dicts(catalog).contains(("Names".spec_bytes(), names)),
                    pdf::dict_dicts(names->0).contains(("Dests".spec_bytes(), top))]
                pdf::dict_dicts(catalog).contains(("Names".spec_bytes(), names)) && names is Some
                    && pdf::dict_dicts(names->0).contains(("Dests".spec_bytes(), top)) && top
                    is Some ==> lacks_name_in_tree(top->0, name)
        }
}

/// Whether a name tree, of no more than 1024 nodes, does not have a name.
pub open spec fn lacks_name_in_tree(root: Dict<'_>, name: Seq<u8>) -> bool {
    exists|tree: NameTree<'_>, array: Array<'_>|
        {
            &&& tree.node == root
            &&& #[trigger] describes_tree(tree, name, array)
            &&& !tree_has_name(tree, name)
            &&& tree_size(tree) <= 1024
        }
}

/// A name that stands for nothing gives no destination.
pub proof fn unknown_names_give_nothing(
    document: &Pdf,
    name: Seq<u8>,
    found: Option<Array<'_>>,
)
    requires
        stands_for_nothing(document, name),
        reads_named(document, name, found),
    ensures
        found is None,
{
    if found is Some {
        let root = choose|root: Option<Dict<'_>>| #[trigger]
            pdf::catalogs(document).contains(root) && match root {
                Some(catalog) => reads_catalog(catalog, name, found),
                None => found is None,
            };
        let catalog = root->0;
        let destinations = choose|destinations: Option<Dict<'_>>| #[trigger]
            pdf::dict_dicts(catalog).contains(("Dests".spec_bytes(), destinations)) && {
                ||| destinations is Some && found is Some && reads_direct(
                    destinations->0,
                    name,
                    found,
                )
                ||| (destinations is Some ==> reads_direct(destinations->0, name, None))
                    && reads_tree(catalog, name, found)
            };
        if destinations is Some && reads_direct(destinations->0, name, found) {
            lemma_reads_direct(destinations->0, name, found->0, found);
        }
        assert(reads_tree(catalog, name, found));
        let names = choose|names: Option<Dict<'_>>| #[trigger]
            pdf::dict_dicts(catalog).contains(("Names".spec_bytes(), names)) && match names {
                Some(names) => exists|root: Option<Dict<'_>>| #[trigger]
                    pdf::dict_dicts(names).contains(("Dests".spec_bytes(), root)) && match root {
                        Some(root) => walk_finds(seq![root], 0, name, found),
                        None => found is None,
                    },
                None => found is None,
            };
        let top = choose|top: Option<Dict<'_>>| #[trigger]
            pdf::dict_dicts(names->0).contains(("Dests".spec_bytes(), top)) && match top {
                Some(root) => walk_finds(seq![root], 0, name, found),
                None => found is None,
            };
        assert(lacks_name_in_tree(top->0, name));
        let (tree, array) = choose|tree: NameTree<'_>, array: Array<'_>|
            {
                &&& tree.node == top->0
                &&& #[trigger] describes_tree(tree, name, array)
                &&& !tree_has_name(tree, name)
                &&& tree_size(tree) <= 1024
            };
        names_are_found_wherever_they_stand(tree, name, array, found);
    }
}

/// A destination that does not start with the object of a page leads nowhere.
pub proof fn destinations_without_a_page_lead_nowhere(
    document: &Pdf,
    array: Array<'_>,
    destination: Option<DestinationView>,
)
    requires
        forall|dict: Option<Dict<'_>>, after: FlexArrayIter<'_>, page: int|
            #![trigger pdf::dicts_at(pdf::array_start(array)).contains((dict, after)),
                pdf::document_dicts(document)[page]]
            pdf::dicts_at(pdf::array_start(array)).contains((dict, after)) && dict is Some
                && pdf::dict_object(dict->0) is Some && 0 <= page < pdf::document_dicts(
                document,
            ).len() ==> pdf::dict_object(pdf::document_dicts(document)[page]) != pdf::dict_object(
                dict->0,
            ),
        reads_array(document, array, destination),
    ensures
        destination is None,
{
    if destination is Some {
        lemma_pages_are_in_the_document(document, array, destination);
        let page = destination->0->Page_0;
        let (dict, after) = choose|dict: Dict<'_>, after: FlexArrayIter<'_>| #[trigger]
            pdf::dicts_at(pdf::array_start(array)).contains((Some(dict), after))
                && pdf::dict_object(dict) is Some && pdf::dict_object(dict) == pdf::dict_object(
                pdf::document_dicts(document)[page],
            );
        assert(pdf::dicts_at(pdf::array_start(array)).contains((Some(dict), after)));
    }
}

/// The node that became known last is searched first: what it has under a name counts, whatever the
/// nodes have that became known before, and where it does not have the name, its last child is next.
pub proof fn latest_node_is_searched_first(
    pending: Seq<Dict<'_>>,
    visited: int,
    tree: NameTree<'_>,
    name: Seq<u8>,
    array: Array<'_>,
    found: Option<Array<'_>>,
)
    requires
        pending.len() > 0,
        pending.last() == tree.node,
        0 <= visited < 1024,
        describes_root(tree),
        forall|i: int|
            0 <= i < tree.entries.len() && (#[trigger] tree.entries[i]).0 == name ==> gives_array(
                tree.entries[i].1,
                array,
            ),
        walk_finds(pending, visited, name, found),
    ensures
        root_has_name(tree, name) ==> found == Some(array),
        !root_has_name(tree, name) && tree.kids.len() > 0 && visited < 1023 && describes_root(
            tree.kids.last(),
        ) && root_has_name(tree.kids.last(), name) && (forall|i: int|
            0 <= i < tree.kids.last().entries.len() && (#[trigger] tree.kids.last().entries[i]).0
                == name ==> gives_array(tree.kids.last().entries[i].1, array)) ==> found == Some(
            array,
        ),
    decreases tree,
{
    let lookup = choose|lookup: NameLookup<NamedValue<'_>>| #[trigger]
        reads_node(pending.last(), name, lookup) && match lookup {
            NameLookup::Found(NamedValue::Array(array)) => found == Some(array),
            NameLookup::Found(NamedValue::Dict(dict)) => {
                pdf::dict_arrays(dict).contains(("D".spec_bytes(), found))
            },
            NameLookup::Found(NamedValue::Other) => found is None,
            NameLookup::Broken => found is None,
            NameLookup::Absent => exists|children: Seq<Dict<'_>>| #[trigger]
                reads_children(pending.last(), children) && walk_finds(
                    pending.drop_last() + children,
                    visited + 1,
                    name,
                    found,
                ),
        };
    lemma_reads_root(tree, name, array, lookup);
    if !root_has_name(tree, name) && tree.kids.len() > 0 && visited < 1023 {
        let children = choose|children: Seq<Dict<'_>>| #[trigger]
            reads_children(pending.last(), children) && walk_finds(
                pending.drop_last() + children,
                visited + 1,
                name,
                found,
            );
        lemma_reads_children(tree, children);
        let next = pending.drop_last() + children;
        let kid = tree.kids.last();
        assert(next.last() == children.last());
        assert(children.last() == kid.node);
        if describes_root(kid) && root_has_name(kid, name) && (forall|i: int|
            0 <= i < kid.entries.len() && (#[trigger] kid.entries[i]).0 == name ==> gives_array(
                kid.entries[i].1,
                array,
            )) {
            latest_node_is_searched_first(next, visited + 1, kid, name, array, found);
        }
    }
}

} // verus!
