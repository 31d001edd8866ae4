//! The parsed forms of a unit file: the item of each line, the directives
//! with their categories, and the key-indexed unit.

use vstd::prelude::*;

use crate::text::{
    first_occurrences, lemma_first_occurrences, lemma_lex_total, lex_lt, sorted_strings,
    strings_view, unique_strings,
};

verus! {

/// What one line of a unit file holds, as parsed.
#[derive(PartialEq, Eq, Clone, Debug)]
pub enum SystemdItem<'a> {
    Comment(&'a str),
    Category(&'a str),
    Directive(&'a str, Option<&'a str>),
}

/// The mathematical form of a [`SystemdItem`].
pub enum ItemView {
    Comment(Seq<char>),
    Category(Seq<char>),
    Directive(Seq<char>, Option<Seq<char>>),
}

/// The characters of an optional string.
pub open spec fn opt_str_view(o: Option<&str>) -> Option<Seq<char>> {
    match o {
        Some(s) => Some(s@),
        None => None,
    }
}

/// The views of a list of items.
pub open spec fn items_view<'a>(v: Seq<SystemdItem<'a>>) -> Seq<ItemView> {
    v.map_values(|it: SystemdItem<'a>| it@)
}

impl<'a> View for SystemdItem<'a> {
    type V = ItemView;

    open spec fn view(&self) -> ItemView {
        match *self {
            SystemdItem::Comment(t) => ItemView::Comment(t@),
            SystemdItem::Category(n) => ItemView::Category(n@),
            SystemdItem::Directive(k, v) => ItemView::Directive(k@, opt_str_view(v)),
        }
    }
}

impl<'a> SystemdItem<'a> {
    fn is_directive(&self) -> (r: bool)
        ensures
            r == (self@ is Directive),
    {
        match *self {
            SystemdItem::Directive(_, _) => true,
            _ => false,
        }
    }
}

/// The mathematical form of a [`UnitDirective`].
pub struct DirectiveView {
    pub category: Seq<char>,
    pub key: Seq<char>,
    pub value: Option<Seq<char>>,
}

/// The characters of an optional owned string.
pub open spec fn opt_string_view(o: Option<String>) -> Option<Seq<char>> {
    match o {
        Some(s) => Some(s@),
        None => None,
    }
}

/// A directive together with the category it stands under.
#[derive(PartialEq, Eq, Clone, Debug)]
pub struct UnitDirective {
    key: String,
    value: Option<String>,
    category: String,
}

impl View for UnitDirective {
    type V = DirectiveView;

    closed spec fn view(&self) -> DirectiveView {
        DirectiveView { category: self.category@, key: self.key@, value: opt_string_view(self.value) }
    }
}

/// The views of a list of directives.
pub open spec fn directives_view(v: Seq<UnitDirective>) -> Seq<DirectiveView> {
    v.map_values(|d: UnitDirective| d@)
}

/// What an input without a single directive is told.
pub const NO_DIRECTIVES: &'static str = "No directives in the file";

/// What an input whose first non-comment line is no category is told.
pub const FIRST_NOT_CATEGORY: &'static str = "The first non-comment line must be a [Category]";

/// Whether some item is a directive.
pub open spec fn has_directive(items: Seq<ItemView>) -> bool {
    exists|i: int| 0 <= i < items.len() && #[trigger] items[i] is Directive
}

/// The name of the first item that is no comment, if that item is a category.
pub open spec fn first_category(items: Seq<ItemView>) -> Option<Seq<char>>
    decreases items.len(),
{
    if items.len() == 0 {
        None
    } else {
        match items[0] {
            ItemView::Comment(_) => first_category(items.drop_first()),
            ItemView::Category(name) => Some(name),
            ItemView::Directive(_, _) => None,
        }
    }
}

/// The directives of `items`, each paired with the nearest category above
/// it; `cat` is the category in force before the first item.
pub open spec fn directives_under(items: Seq<ItemView>, cat: Seq<char>) -> Seq<DirectiveView>
    decreases items.len(),
{
    if items.len() == 0 {
        seq![]
    } else {
        match items[0] {
            ItemView::Comment(_) => directives_under(items.drop_first(), cat),
            ItemView::Category(name) => directives_under(items.drop_first(), name),
            ItemView::Directive(k, v) => seq![DirectiveView { category: cat, key: k, value: v }]
                + directives_under(items.drop_first(), cat),
        }
    }
}

/// The directives of a unit file's items, or why there are none to take.
pub open spec fn assemble(items: Seq<ItemView>) -> Result<Seq<DirectiveView>, Seq<char>> {
    if !has_directive(items) {
        Err(NO_DIRECTIVES@)
    } else {
        match first_category(items) {
            Some(cat) => Ok(directives_under(items, cat)),
            None => Err(FIRST_NOT_CATEGORY@),
        }
    }
}

impl UnitDirective {
    pub fn value(&self) -> (r: Option<&str>)
        ensures
            opt_str_view(r) == self@.value,
    {
        match &self.value {
            Some(s) => Some(s.as_str()),
            None => None,
        }
    }

    pub fn key(&self) -> (r: &str)
        ensures
            r@ == self@.key,
    {
        self.key.as_str()
    }

    pub fn category(&self) -> (r: &str)
        ensures
            r@ == self@.category,
    {
        self.category.as_str()
    }

    pub fn new(category: &str, key: &str, value: Option<&str>) -> (r: UnitDirective)
        ensures
            r@ == (DirectiveView { category: category@, key: key@, value: opt_str_view(value) }),
    {
        let value = match value {
            Some(v) => Some(String::from_str(v)),
            None => None,
        };
        UnitDirective { category: String::from_str(category), value, key: String::from_str(key) }
    }

    /// Pairs every directive with the category it stands under. Fails when
    /// there is no directive, or when the first item that is no comment is no
    /// category.
    pub fn item_list_to_unit_directive_list(unit_items: &Vec<SystemdItem>) -> (r: Result<
        Vec<UnitDirective>,
        String,
    >)
        ensures
            match assemble(items_view(unit_items@)) {
                Ok(ds) => r matches Ok(v) && directives_view(v@) == ds,
                Err(m) => r matches Err(e) && e@ == m,
            },
    {
        let ghost items = items_view(unit_items@);
        let mut found = false;
        assert(items.skip(0) =~= items);
        for j in 0..unit_items.len()
            invariant
                items == items_view(unit_items@),
                found == exists|i: int| 0 <= i < j && #[trigger] items[i] is Directive,
        {
            assert(items[j as int] == unit_items@[j as int]@);
            if unit_items[j].is_directive() {
                found = true;
            }
        }
        if !found {
            return Err(String::from_str(NO_DIRECTIVES));
        }
        let mut cat = match UnitDirective::get_first_category(unit_items) {
            Ok(c) => c,
            Err(e) => return Err(e),
        };
        let ghost first = cat@;
        let mut res: Vec<UnitDirective> = Vec::new();
        assert(directives_view(res@) + directives_under(items.skip(0), cat@) =~= directives_under(
            items,
            first,
        ));
        for j in 0..unit_items.len()
            invariant
                items == items_view(unit_items@),
                first_category(items) == Some(first),
                directives_under(items, first) == directives_view(res@) + directives_under(
                    items.skip(j as int),
                    cat@,
                ),
        {
            let ghost rest = items.skip(j as int);
            assert(rest.drop_first() =~= items.skip(j + 1));
            assert(rest[0] == unit_items@[j as int]@);
            match unit_items[j] {
                SystemdItem::Category(new_cat) => {
                    cat = new_cat;
                },
                SystemdItem::Directive(key, value) => {
                    let d = UnitDirective::new(cat, key, value);
                    let ghost before = directives_view(res@);
                    res.push(d);
                    assert(directives_view(res@) =~= before.push(d@));
                    assert(before + (seq![d@] + directives_under(items.skip(j + 1), cat@))
                        =~= before.push(d@) + directives_under(items.skip(j + 1), cat@));
                },
                SystemdItem::Comment(_) => {},
            }
        }
        assert(items.skip(unit_items.len() as int) =~= seq![]);
        assert(directives_view(res@) + seq![] =~= directives_view(res@));
        Ok(res)
    }

    /// The name of the first item that is no comment, which must be a
    /// category.
    fn get_first_category<'a, 'b>(unit_items: &'b Vec<SystemdItem<'a>>) -> (r: Result<&'a str, String>)
        ensures
            match first_category(items_view(unit_items@)) {
                Some(c) => r matches Ok(n) && n@ == c,
                None => r matches Err(e) && e@ == FIRST_NOT_CATEGORY@,
            },
    {
        let ghost items = items_view(unit_items@);
        assert(items.skip(0) =~= items);
        for j in 0..unit_items.len()
            invariant
                items == items_view(unit_items@),
                first_category(items) == first_category(items.skip(j as int)),
        {
            let ghost rest = items.skip(j as int);
            assert(rest.drop_first() =~= items.skip(j + 1));
            assert(rest[0] == unit_items@[j as int]@);
            match unit_items[j] {
                SystemdItem::Comment(_) => {},
                SystemdItem::Category(name) => {
                    return Ok(name);
                },
                SystemdItem::Directive(_, _) => {
                    return Err(String::from_str(FIRST_NOT_CATEGORY));
                },
            }
        }
        assert(items.skip(unit_items.len() as int) =~= seq![]);
        Err(String::from_str(FIRST_NOT_CATEGORY))
    }
}

/// The directives that share one key: one, or several in source order.
#[derive(PartialEq, Eq, Clone, Debug)]
pub enum DirectiveEntry {
    Solo(UnitDirective),
    Many(Vec<UnitDirective>),
}

/// The mathematical form of a [`DirectiveEntry`].
pub enum EntryView {
    Solo(DirectiveView),
    Many(Seq<DirectiveView>),
}

impl View for DirectiveEntry {
    type V = EntryView;

    open spec fn view(&self) -> EntryView {
        match self {
            DirectiveEntry::Solo(d) => EntryView::Solo(d@),
            DirectiveEntry::Many(ds) => EntryView::Many(directives_view(ds@)),
        }
    }
}

/// The views of a list of entries.
pub open spec fn entries_view(v: Seq<DirectiveEntry>) -> Seq<EntryView> {
    v.map_values(|e: DirectiveEntry| e@)
}

/// The directives of an entry, in order.
pub open spec fn members(e: EntryView) -> Seq<DirectiveView> {
    match e {
        EntryView::Solo(d) => seq![d],
        EntryView::Many(ds) => ds,
    }
}

/// The key of an entry: that of its first directive.
pub open spec fn entry_key(e: EntryView) -> Seq<char> {
    members(e)[0].key
}

/// The category of an entry: that of its first directive.
pub open spec fn entry_category(e: EntryView) -> Seq<char> {
    members(e)[0].category
}

/// A `Many` entry holds at least two directives, all of one key.
pub open spec fn entry_wf(e: EntryView) -> bool {
    match e {
        EntryView::Solo(_) => true,
        EntryView::Many(ds) => ds.len() >= 2 && forall|j: int|
            0 <= j < ds.len() ==> (#[trigger] ds[j]).key == ds[0].key,
    }
}

/// Entries that are each well formed and have distinct keys.
pub open spec fn entries_wf(es: Seq<EntryView>) -> bool {
    &&& forall|i: int| 0 <= i < es.len() ==> entry_wf(#[trigger] es[i])
    &&& forall|i: int, j: int|
        0 <= i < es.len() && 0 <= j < es.len() && i != j ==> entry_key(#[trigger] es[i])
            != entry_key(#[trigger] es[j])
}

/// The index of the entry with key `k`, the first one if several.
pub open spec fn key_position(es: Seq<EntryView>, k: Seq<char>) -> Option<int>
    decreases es.len(),
{
    if es.len() == 0 {
        None
    } else if entry_key(es[0]) == k {
        Some(0)
    } else {
        match key_position(es.drop_first(), k) {
            Some(j) => Some(j + 1),
            None => None,
        }
    }
}

/// The entry with key `k`, if any.
pub open spec fn lookup(es: Seq<EntryView>, k: Seq<char>) -> Option<EntryView> {
    match key_position(es, k) {
        Some(i) => Some(es[i]),
        None => None,
    }
}

/// Where `key_position` points: at the first entry of key `k`, if any.
proof fn lemma_key_position(es: Seq<EntryView>, k: Seq<char>)
    ensures
        match key_position(es, k) {
            Some(i) => 0 <= i < es.len() && entry_key(es[i]) == k && forall|j: int|
                0 <= j < i ==> entry_key(#[trigger] es[j]) != k,
            None => forall|j: int| 0 <= j < es.len() ==> entry_key(#[trigger] es[j]) != k,
        },
    decreases es.len(),
{
    if es.len() > 0 {
        lemma_key_position(es.drop_first(), k);
        assert forall|j: int| 1 <= j < es.len() implies es[j] == es.drop_first()[j - 1] by {}
    }
}

/// What a key found under two categories is told.
pub const REPEATED_IN_CATEGORIES: &'static str =
    "The same directive is repeated many times in different categories: ";

/// The message naming the key of two directives and their two categories.
pub open spec fn conflict_message(first: DirectiveView, last: DirectiveView) -> Seq<char> {
    REPEATED_IN_CATEGORIES@ + last.key + " in ["@ + first.category + "] and in ["@
        + last.category + "]"@
}

/// Adds directive `d` to the entries: a new key makes a `Solo` entry; a key
/// seen before joins its entry, whose first and last directives must then
/// share a category.
pub open spec fn add_directive(es: Seq<EntryView>, d: DirectiveView) -> Result<
    Seq<EntryView>,
    Seq<char>,
> {
    match key_position(es, d.key) {
        None => Ok(es.push(EntryView::Solo(d))),
        Some(i) => {
            let list = members(es[i]).push(d);
            if list[0].category == d.category {
                Ok(es.update(i, EntryView::Many(list)))
            } else {
                Err(conflict_message(list[0], d))
            }
        },
    }
}

/// The entries of a list of directives, folded in order, or the first
/// conflict.
pub open spec fn index_directives(ds: Seq<DirectiveView>) -> Result<Seq<EntryView>, Seq<char>>
    decreases ds.len(),
{
    if ds.len() == 0 {
        Ok(seq![])
    } else {
        match index_directives(ds.drop_last()) {
            Ok(es) => add_directive(es, ds.last()),
            Err(m) => Err(m),
        }
    }
}

/// The unit that a list of items makes, or why it makes none.
pub open spec fn unit_of_items(items: Seq<ItemView>) -> Result<Seq<EntryView>, Seq<char>> {
    match assemble(items) {
        Ok(ds) => index_directives(ds),
        Err(m) => Err(m),
    }
}

/// A conflict in a prefix of the directives is the conflict of them all.
proof fn lemma_index_err_prefix(ds: Seq<DirectiveView>, k: int)
    requires
        0 <= k <= ds.len(),
        index_directives(ds.take(k)) is Err,
    ensures
        index_directives(ds) == index_directives(ds.take(k)),
    decreases ds.len() - k,
{
    if k < ds.len() {
        assert(ds.take(k + 1).drop_last() =~= ds.take(k));
        lemma_index_err_prefix(ds, k + 1);
    } else {
        assert(ds.take(k) =~= ds);
    }
}

/// Adding a directive keeps the entries well formed.
proof fn lemma_add_directive_wf(es: Seq<EntryView>, d: DirectiveView)
    requires
        entries_wf(es),
    ensures
        add_directive(es, d) matches Ok(es2) ==> entries_wf(es2),
{
    lemma_key_position(es, d.key);
    match key_position(es, d.key) {
        None => {
            let es2 = es.push(EntryView::Solo(d));
            assert forall|i: int, j: int|
                0 <= i < es2.len() && 0 <= j < es2.len() && i != j implies entry_key(
                #[trigger] es2[i],
            ) != entry_key(#[trigger] es2[j]) by {
                if i < es.len() && j < es.len() {
                    assert(es2[i] == es[i] && es2[j] == es[j]);
                }
            }
            assert(forall|i: int| 0 <= i < es.len() ==> es2[i] == es[i]);
        },
        Some(p) => {
            let list = members(es[p]).push(d);
            let es2 = es.update(p, EntryView::Many(list));
            assert(entry_wf(es[p]));
            assert(entry_key(es2[p]) == entry_key(es[p]));
            assert(entry_wf(es2[p]));
        },
    }
}

/// The entries built from any directives are well formed.
proof fn lemma_index_wf(ds: Seq<DirectiveView>)
    ensures
        index_directives(ds) matches Ok(es) ==> entries_wf(es),
    decreases ds.len(),
{
    if ds.len() > 0 {
        lemma_index_wf(ds.drop_last());
        if let Ok(es) = index_directives(ds.drop_last()) {
            lemma_add_directive_wf(es, ds.last());
        }
    }
}

impl DirectiveEntry {
    /// The category of the entry's first directive.
    pub fn category(&self) -> (r: String)
        requires
            entry_wf(self@),
        ensures
            r@ == entry_category(self@),
    {
        match self {
            DirectiveEntry::Solo(entry) => entry.category.clone(),
            DirectiveEntry::Many(entries) => entries[0].category.clone(),
        }
    }

    /// The key of the entry's first directive.
    pub fn key(&self) -> (r: String)
        requires
            entry_wf(self@),
        ensures
            r@ == entry_key(self@),
    {
        self.key_ref().clone()
    }

    fn key_ref(&self) -> (r: &String)
        requires
            entry_wf(self@),
        ensures
            r@ == entry_key(self@),
    {
        match self {
            DirectiveEntry::Solo(entry) => &entry.key,
            DirectiveEntry::Many(entries) => &entries[0].key,
        }
    }
}

/// A unit file: its directives indexed by key, each key once, in the order
/// in which the keys first appear.
#[derive(PartialEq, Eq, Debug)]
pub struct SystemdUnit {
    directives: Vec<DirectiveEntry>,
}

impl View for SystemdUnit {
    type V = Seq<EntryView>;

    closed spec fn view(&self) -> Seq<EntryView> {
        entries_view(self.directives@)
    }
}

impl SystemdUnit {
    #[verifier::type_invariant]
    spec fn inv(self) -> bool {
        entries_wf(entries_view(self.directives@))
    }

    /// The unit that a parsed file makes: its directives with their
    /// categories, indexed by key.
    pub fn new(unit_items: &Vec<SystemdItem>) -> (r: Result<SystemdUnit, String>)
        ensures
            match unit_of_items(items_view(unit_items@)) {
                Ok(es) => r matches Ok(u) && u@ == es,
                Err(m) => r matches Err(e) && e@ == m,
            },
    {
        let directives = match UnitDirective::item_list_to_unit_directive_list(unit_items) {
            Ok(ds) => ds,
            Err(e) => return Err(e),
        };
        let directives_hash = match SystemdUnit::hash_from_directives(directives) {
            Ok(es) => es,
            Err(e) => return Err(e),
        };
        proof {
            lemma_index_wf(
                match assemble(items_view(unit_items@)) {
                    Ok(ds) => ds,
                    Err(_) => seq![],
                },
            );
        }
        Ok(SystemdUnit { directives: directives_hash })
    }

    /// Folds the directives into entries by key, in order.
    fn hash_from_directives(directives: Vec<UnitDirective>) -> (r: Result<
        Vec<DirectiveEntry>,
        String,
    >)
        ensures
            match index_directives(directives_view(directives@)) {
                Ok(es) => r matches Ok(v) && entries_view(v@) == es,
                Err(m) => r matches Err(e) && e@ == m,
            },
    {
        let ghost ds = directives_view(directives@);
        let mut directives_hash: Vec<DirectiveEntry> = Vec::new();
        proof {
            lemma_index_wf(ds.take(0));
            assert(ds.take(0) =~= seq![]);
            assert(entries_view(directives_hash@) =~= seq![]);
        }
        for directive in it: directives
            invariant
                ds == directives_view(it.seq()),
                index_directives(ds.take(it.index() as int)) == Ok::<_, Seq<char>>(
                    entries_view(directives_hash@),
                ),
                entries_wf(entries_view(directives_hash@)),
        {
            let ghost done = ds.take(it.index() as int);
            let ghost es = entries_view(directives_hash@);
            let ghost d = directive@;
            assert(ds.take(it.index() + 1).drop_last() =~= done);
            assert(ds.take(it.index() + 1).last() == d);
            proof {
                lemma_key_position(es, d.key);
                lemma_add_directive_wf(es, d);
            }
            let mut found: Option<usize> = None;
            for j in 0..directives_hash.len()
                invariant
                    es == entries_view(directives_hash@),
                    entries_wf(es),
                    d == directive@,
                    match found {
                        Some(p) => p < j && entry_key(es[p as int]) == d.key,
                        None => forall|q: int| 0 <= q < j ==> entry_key(#[trigger] es[q]) != d.key,
                    },
            {
                assert(es[j as int] == directives_hash@[j as int]@);
                if found.is_none() && directives_hash[j].key_ref().eq(&directive.key) {
                    found = Some(j);
                }
            }
            match found {
                None => {
                    directives_hash.push(DirectiveEntry::Solo(directive));
                    assert(entries_view(directives_hash@) =~= es.push(EntryView::Solo(d)));
                },
                Some(p) => {
                    assert(key_position(es, d.key) == Some(p as int));
                    let old_entry = directives_hash.remove(p);
                    let mut vecs: Vec<UnitDirective> = match old_entry {
                        DirectiveEntry::Solo(first_dir) => {
                            let mut v = Vec::new();
                            v.push(first_dir);
                            v
                        },
                        DirectiveEntry::Many(dirs) => dirs,
                    };
                    assert(directives_view(vecs@) =~= members(es[p as int]));
                    vecs.push(directive);
                    assert(directives_view(vecs@) =~= members(es[p as int]).push(d));
                    if let Err(e) = SystemdUnit::validate_many(&vecs) {
                        proof {
                            lemma_index_err_prefix(ds, it.index() + 1);
                        }
                        return Err(e);
                    }
                    let ghost list = directives_view(vecs@);
                    directives_hash.insert(p, DirectiveEntry::Many(vecs));
                    assert(entries_view(directives_hash@) =~= es.update(
                        p as int,
                        EntryView::Many(list),
                    ));
                },
            }
        }
        assert(ds.take(ds.len() as int) =~= ds);
        Ok(directives_hash)
    }

    /// The first and the last of several directives of one key must share a
    /// category.
    fn validate_many(dirs: &Vec<UnitDirective>) -> (r: Result<(), String>)
        requires
            dirs.len() >= 2,
        ensures
            r is Ok <==> dirs@[0]@.category == dirs@.last()@.category,
            r matches Err(m) ==> m@ == conflict_message(dirs@[0]@, dirs@.last()@),
    {
        let first = &dirs[0];
        let last = &dirs[dirs.len() - 1];
        if first.category.eq(&last.category) {
            Ok(())
        } else {
            let mut m = String::from_str(REPEATED_IN_CATEGORIES);
            m.append(last.key.as_str());
            m.append(" in [");
            m.append(first.category.as_str());
            m.append("] and in [");
            m.append(last.category.as_str());
            m.append("]");
            Err(m)
        }
    }
}

/// The entries whose category is `c`, in order.
pub open spec fn in_category(es: Seq<EntryView>, c: Seq<char>) -> Seq<EntryView>
    decreases es.len(),
{
    if es.len() == 0 {
        seq![]
    } else if entry_category(es.last()) == c {
        in_category(es.drop_last(), c).push(es.last())
    } else {
        in_category(es.drop_last(), c)
    }
}

/// The views of a list of borrowed entries.
pub open spec fn entry_refs_view(v: Seq<&DirectiveEntry>) -> Seq<EntryView> {
    v.map_values(|e: &DirectiveEntry| e@)
}

/// The categories of the entries, as a set.
pub open spec fn category_set(es: Seq<EntryView>) -> Set<Seq<char>> {
    Set::new(|c: Seq<char>| exists|i: int| 0 <= i < es.len() && entry_category(es[i]) == c)
}

/// `r` lists the categories of the entries, each once, in ascending order.
pub open spec fn is_category_listing(es: Seq<EntryView>, r: Seq<Seq<char>>) -> bool {
    &&& r.to_set() == category_set(es)
    &&& forall|i: int, j: int| 0 <= i < j < r.len() ==> lex_lt(#[trigger] r[i], #[trigger] r[j])
}

impl SystemdUnit {
    /// The entry of `key`, if the unit has one.
    pub fn lookup_by_key(&self, key: &str) -> (r: Option<&DirectiveEntry>)
        ensures
            match lookup(self@, key@) {
                Some(e) => r matches Some(x) && x@ == e,
                None => r is None,
            },
    {
        let k = String::from_str(key);
        proof {
            lemma_key_position(self@, key@);
        }
        for j in 0..self.directives.len()
            invariant
                k@ == key@,
                forall|q: int| 0 <= q < j ==> entry_key(#[trigger] self@[q]) != key@,
        {
            proof {
                use_type_invariant(self);
            }
            assert(self@[j as int] == self.directives@[j as int]@);
            if self.directives[j].key_ref().eq(&k) {
                proof {
                    lemma_key_position(self@, key@);
                }
                return Some(&self.directives[j]);
            }
        }
        None
    }

    /// The entries whose category is `category`, in the unit's order.
    pub fn lookup_by_category(&self, category: &str) -> (r: Vec<&DirectiveEntry>)
        ensures
            entry_refs_view(r@) == in_category(self@, category@),
    {
        let c = String::from_str(category);
        let mut res: Vec<&DirectiveEntry> = Vec::new();
        for j in 0..self.directives.len()
            invariant
                c@ == category@,
                entry_refs_view(res@) == in_category(self@.take(j as int), category@),
        {
            proof {
                use_type_invariant(self);
            }
            let ghost es = self@.take(j + 1);
            assert(es.drop_last() =~= self@.take(j as int));
            assert(es.last() == self.directives@[j as int]@);
            let ghost before = entry_refs_view(res@);
            if self.directives[j].category().eq(&c) {
                res.push(&self.directives[j]);
                assert(entry_refs_view(res@) =~= before.push(self.directives@[j as int]@));
            }
        }
        assert(self@.take(self@.len() as int) =~= self@);
        res
    }

    /// Whether the unit has an entry of `key`.
    pub fn has_key(&self, key: &str) -> (r: bool)
        ensures
            r == lookup(self@, key@) is Some,
    {
        self.lookup_by_key(key).is_some()
    }

    /// Whether some entry of the unit has category `category`.
    pub fn has_category(&self, category: &str) -> (r: bool)
        ensures
            r == exists|i: int| 0 <= i < self@.len() && entry_category(#[trigger] self@[i]) == category@,
    {
        let c = String::from_str(category);
        for j in 0..self.directives.len()
            invariant
                c@ == category@,
                forall|q: int| 0 <= q < j ==> entry_category(#[trigger] self@[q]) != category@,
        {
            proof {
                use_type_invariant(self);
            }
            assert(self@[j as int] == self.directives@[j as int]@);
            if self.directives[j].category().eq(&c) {
                return true;
            }
        }
        false
    }

    /// All the entries, in the unit's order; each is well formed and has a
    /// key of its own.
    pub fn keys(&self) -> (r: Vec<&DirectiveEntry>)
        ensures
            entry_refs_view(r@) == self@,
            entries_wf(self@),
    {
        proof {
            use_type_invariant(self);
        }
        let mut res: Vec<&DirectiveEntry> = Vec::new();
        for j in 0..self.directives.len()
            invariant
                entry_refs_view(res@) == self@.take(j as int),
        {
            let ghost before = entry_refs_view(res@);
            assert(self@[j as int] == self.directives@[j as int]@);
            res.push(&self.directives[j]);
            assert(entry_refs_view(res@) =~= before.push(self.directives@[j as int]@));
            assert(entry_refs_view(res@) =~= self@.take(j + 1));
        }
        assert(self@.take(self@.len() as int) =~= self@);
        res
    }

    /// The categories of the unit, each once, sorted.
    pub fn categories(&self) -> (r: Vec<String>)
        ensures
            is_category_listing(self@, strings_view(r@)),
    {
        let mut all: Vec<String> = Vec::new();
        for j in 0..self.directives.len()
            invariant
                all@.len() == j,
                forall|q: int| 0 <= q < j ==> (#[trigger] all@[q])@ == entry_category(self@[q]),
        {
            proof {
                use_type_invariant(self);
            }
            assert(self@[j as int] == self.directives@[j as int]@);
            all.push(self.directives[j].category());
        }
        let ghost a = strings_view(all@);
        assert forall|c: Seq<char>| a.contains(c) <==> category_set(self@).contains(c) by {
            if a.contains(c) {
                let q = choose|q: int| 0 <= q < a.len() && a[q] == c;
                assert(entry_category(self@[q]) == c);
            }
            if category_set(self@).contains(c) {
                let q = choose|q: int| 0 <= q < self@.len() && entry_category(self@[q]) == c;
                assert(a[q] == c);
            }
        }
        let distinct = unique_strings(all);
        proof {
            lemma_first_occurrences(a);
        }
        let ghost u = strings_view(distinct@);
        let sorted = sorted_strings(distinct);
        let ghost o = strings_view(sorted@);
        proof {
            u.lemma_multiset_has_no_duplicates();
            u.to_multiset_ensures();
            o.to_multiset_ensures();
            o.lemma_multiset_has_no_duplicates_conv();
            assert forall|i: int, j: int| 0 <= i < j < o.len() implies lex_lt(
                #[trigger] o[i],
                #[trigger] o[j],
            ) by {
                lemma_lex_total(o[i], o[j]);
            }
            assert forall|c: Seq<char>| o.contains(c) <==> a.contains(c) by {
                assert(o.to_multiset().count(c) == u.to_multiset().count(c));
            }
            assert(o.to_set() =~= category_set(self@));
        }
        sorted
    }
}

/// The directive items of a list of keys and values.
pub open spec fn directive_items(kvs: Seq<(Seq<char>, Option<Seq<char>>)>) -> Seq<ItemView> {
    kvs.map_values(|kv: (Seq<char>, Option<Seq<char>>)| ItemView::Directive(kv.0, kv.1))
}

/// The directives of a list of keys and values, all under category `c`.
pub open spec fn directives_in(c: Seq<char>, kvs: Seq<(Seq<char>, Option<Seq<char>>)>) -> Seq<
    DirectiveView,
> {
    kvs.map_values(
        |kv: (Seq<char>, Option<Seq<char>>)| DirectiveView { category: c, key: kv.0, value: kv.1 },
    )
}

proof fn lemma_directives_under_plain(c: Seq<char>, kvs: Seq<(Seq<char>, Option<Seq<char>>)>)
    ensures
        directives_under(directive_items(kvs), c) == directives_in(c, kvs),
    decreases kvs.len(),
{
    if kvs.len() > 0 {
        assert(directive_items(kvs).drop_first() =~= directive_items(kvs.drop_first()));
        lemma_directives_under_plain(c, kvs.drop_first());
        assert(directives_in(c, kvs) =~= seq![directives_in(c, kvs)[0]] + directives_in(
            c,
            kvs.drop_first(),
        ));
    }
}

/// Directives of distinct keys each make a `Solo` entry, in order.
proof fn lemma_index_distinct(ds: Seq<DirectiveView>)
    requires
        forall|i: int, j: int|
            0 <= i < ds.len() && 0 <= j < ds.len() && i != j ==> (#[trigger] ds[i]).key != (
            #[trigger] ds[j]).key,
    ensures
        index_directives(ds) == Ok::<_, Seq<char>>(
            ds.map_values(|d: DirectiveView| EntryView::Solo(d)),
        ),
    decreases ds.len(),
{
    if ds.len() > 0 {
        let t = ds.drop_last();
        lemma_index_distinct(t);
        let es = t.map_values(|d: DirectiveView| EntryView::Solo(d));
        lemma_key_position(es, ds.last().key);
        if let Some(p) = key_position(es, ds.last().key) {
            assert(ds[p] == t[p]);
            assert(ds.last() == ds[ds.len() - 1]);
        }
        assert(key_position(es, ds.last().key) is None);
        assert(es.push(EntryView::Solo(ds.last())) =~= ds.map_values(
            |d: DirectiveView| EntryView::Solo(d),
        ));
    } else {
        assert(ds.map_values(|d: DirectiveView| EntryView::Solo(d)) =~= seq![]);
    }
}

/// A file of one category and directives of distinct keys: every key has a
/// `Solo` entry with its directive under that category, and the one category
/// is the only one listed.
pub proof fn lemma_one_category_distinct_keys(
    c: Seq<char>,
    kvs: Seq<(Seq<char>, Option<Seq<char>>)>,
)
    requires
        kvs.len() >= 1,
        forall|i: int, j: int|
            0 <= i < kvs.len() && 0 <= j < kvs.len() && i != j ==> (#[trigger] kvs[i]).0 != (
            #[trigger] kvs[j]).0,
    ensures
        unit_of_items(seq![ItemView::Category(c)] + directive_items(kvs)) matches Ok(u) && {
            &&& forall|i: int|
                0 <= i < kvs.len() ==> lookup(u, (#[trigger] kvs[i]).0) == Some(
                    EntryView::Solo(DirectiveView { category: c, key: kvs[i].0, value: kvs[i].1 }),
                )
            &&& forall|r: Seq<Seq<char>>| is_category_listing(u, r) ==> r == seq![c]
        },
{
    let items = seq![ItemView::Category(c)] + directive_items(kvs);
    assert(items[1] is Directive);
    assert(items.drop_first() =~= directive_items(kvs));
    lemma_directives_under_plain(c, kvs);
    let ds = directives_in(c, kvs);
    assert(assemble(items) == Ok::<_, Seq<char>>(ds));
    assert forall|i: int, j: int|
        0 <= i < ds.len() && 0 <= j < ds.len() && i != j implies (#[trigger] ds[i]).key != (
        #[trigger] ds[j]).key by {
        assert(ds[i].key == kvs[i].0 && ds[j].key == kvs[j].0);
    }
    lemma_index_distinct(ds);
    let u = ds.map_values(|d: DirectiveView| EntryView::Solo(d));
    assert forall|i: int| 0 <= i < kvs.len() implies lookup(u, (#[trigger] kvs[i]).0) == Some(
        EntryView::Solo(DirectiveView { category: c, key: kvs[i].0, value: kvs[i].1 }),
    ) by {
        lemma_key_position(u, kvs[i].0);
        assert(entry_key(u[i]) == kvs[i].0);
        if let Some(p) = key_position(u, kvs[i].0) {
            assert(entry_key(u[p]) == kvs[p].0);
        }
    }
    assert forall|r: Seq<Seq<char>>| is_category_listing(u, r) implies r == seq![c] by {
        assert(entry_category(u[0]) == c);
        assert(category_set(u).contains(c));
        assert(r.to_set().contains(c));
        assert forall|i: int| 0 <= i < r.len() implies r[i] == c by {
            assert(r.to_set().contains(r[i]));
            assert(category_set(u).contains(r[i]));
            let q = choose|q: int| 0 <= q < u.len() && entry_category(u[q]) == r[i];
            assert(entry_category(u[q]) == c);
        }
        if r.len() > 1 {
            assert(lex_lt(r[0], r[1]));
            lemma_lex_total(c, c);
        }
        assert(r =~= seq![c]);
    }
}

} // verus!
