//! Entity declarations of a document type definition, and their
//! substitution in the text that declares them.

use crate::error::DictError;
use crate::replace::{replace_all, replaced};
use crate::text::{from_chars, holds_char, to_chars};
use vstd::prelude::*;

verus! {

/// One declared entity: its name and the text that replaces a reference to it.
pub struct Declaration {
    pub name: Seq<char>,
    pub value: Seq<char>,
}

/// The reference to the entity `name`, as it is written in running text:
/// an ampersand, the name, a semicolon.
pub open spec fn token(name: Seq<char>) -> Seq<char> {
    seq!['&'] + name + seq![';']
}

/// Some declaration of `table` has this name.
pub open spec fn declares(table: Seq<Declaration>, name: Seq<char>) -> bool {
    exists|i: int| 0 <= i < table.len() && (#[trigger] table[i]).name == name
}

/// `table` after one more declaration: a name that is already declared keeps
/// its place and takes the new value, a new name goes to the end.
pub open spec fn put(table: Seq<Declaration>, name: Seq<char>, value: Seq<char>) -> Seq<
    Declaration,
> {
    if declares(table, name) {
        table.map_values(
            |d: Declaration|
                if d.name == name {
                    Declaration { name, value }
                } else {
                    d
                },
        )
    } else {
        table.push(Declaration { name, value })
    }
}

/// The declaration at `index` is the first of `table` with this name.
pub open spec fn first_named(table: Seq<Declaration>, name: Seq<char>, index: int) -> bool {
    &&& 0 <= index < table.len()
    &&& table[index].name == name
    &&& forall|k: int| 0 <= k < index ==> (#[trigger] table[k]).name != name
}

/// No two declarations of `table` have the same name.
pub open spec fn names_distinct(table: Seq<Declaration>) -> bool {
    forall|i: int, j: int|
        0 <= i < j < table.len() ==> (#[trigger] table[i]).name != (#[trigger] table[j]).name
}

/// `text` after the declarations of `table` have been applied one after the
/// other, the first one first, each to the whole text that the one before
/// it left.
pub open spec fn substituted(text: Seq<char>, table: Seq<Declaration>) -> Seq<char>
    decreases table.len(),
{
    if table.len() == 0 {
        text
    } else {
        replaced(substituted(text, table.drop_last()), token(table.last().name), table.last().value)
    }
}

/// One of the two characters that delimit a reference.
pub open spec fn is_delimiter(c: char) -> bool {
    c == '&' || c == ';'
}

/// A name that holds neither delimiter.
pub open spec fn plain_name(name: Seq<char>) -> bool {
    forall|i: int| 0 <= i < name.len() ==> !is_delimiter(#[trigger] name[i])
}

/// A value that holds no ampersand.
pub open spec fn plain_value(value: Seq<char>) -> bool {
    forall|i: int| 0 <= i < value.len() ==> #[trigger] value[i] != '&'
}

/// Every name and every value of `table` is plain.
pub open spec fn plain_table(table: Seq<Declaration>) -> bool {
    forall|i: int|
        0 <= i < table.len() ==> plain_name((#[trigger] table[i]).name) && plain_value(
            table[i].value,
        )
}

/// The table after one match of the declaration pattern: the first group
/// is the name, the second the value. A match that lacks either adds
/// nothing.
pub open spec fn declared(table: Seq<Declaration>, groups: Seq<Option<Seq<char>>>) -> Seq<
    Declaration,
> {
    if groups.len() > 2 && groups[1] is Some && groups[2] is Some {
        put(table, groups[1]->0, groups[2]->0)
    } else {
        table
    }
}

/// The table that a sequence of matches builds, the first match first.
pub open spec fn table_of(matches: Seq<Seq<Option<Seq<char>>>>) -> Seq<Declaration>
    decreases matches.len(),
{
    if matches.len() == 0 {
        Seq::empty()
    } else {
        declared(table_of(matches.drop_last()), matches.last())
    }
}

/// One more declaration leaves the names of the table distinct.
pub proof fn lemma_put_keeps_names_distinct(
    table: Seq<Declaration>,
    name: Seq<char>,
    value: Seq<char>,
)
    requires
        names_distinct(table),
    ensures
        names_distinct(put(table, name, value)),
{
    let after = put(table, name, value);
    assert forall|i: int, j: int| 0 <= i < j < after.len() implies (#[trigger] after[i]).name != (
    #[trigger] after[j]).name by {
        if declares(table, name) {
            assert(after[i].name == table[i].name);
            assert(after[j].name == table[j].name);
        } else {
            if j < table.len() {
                assert(after[i] == table[i] && after[j] == table[j]);
            } else {
                assert(table[i].name != name);
            }
        }
    }
}

/// The table of a document is a mapping: it declares no name twice. A
/// name that the document declares again keeps one place in it.
pub proof fn lemma_table_names_distinct(matches: Seq<Seq<Option<Seq<char>>>>)
    ensures
        names_distinct(table_of(matches)),
    decreases matches.len(),
{
    if matches.len() > 0 {
        lemma_table_names_distinct(matches.drop_last());
        let groups = matches.last();
        if groups.len() > 2 && groups[1] is Some && groups[2] is Some {
            lemma_put_keeps_names_distinct(table_of(matches.drop_last()), groups[1]->0, groups[2]->0);
        }
    }
}

/// The regular expression that finds an entity declaration, such as
/// `<!ENTITY n "noun">`: its first group is the name, its second the value.
pub const ENTITY_PATTERN: &'static str = "<!ENTITY\\s+([^\\s]+)\\s+\"([^\"]+)\">";

/// What the successive non-overlapping matches of the regular expression
/// `pattern` in `text` capture, once the pattern has been compiled: for each
/// match, from left to right, the text of each of its groups, the whole
/// match first, and nothing for a group that took no part in the match.
pub uninterp spec fn regex_groups(pattern: Seq<char>, text: Seq<char>) -> Seq<
    Seq<Option<Seq<char>>>,
>;

/// Whether the matcher takes `pattern` for a regular expression: whether
/// `regex::Regex::new` compiles it.
pub uninterp spec fn regex_accepts(pattern: Seq<char>) -> bool;

/// The error of the `regex` crate, carried through as it is.
#[verifier::external_type_specification]
#[verifier::external_body]
pub struct ExRegexError(regex::Error);

/// Compiles `pattern` with `regex::Regex::new` and walks
/// `Regex::captures_iter` over `text`. Trusted: whether the pattern
/// compiles depends on the pattern alone, and the call fails exactly where
/// it does not; where it compiles, the groups handed back are those that
/// the matcher reports, which depend on the pattern and the text alone.
#[verifier::external_body]
fn capture_groups(pattern: &str, text: &str) -> (found: Result<
    Vec<Vec<Option<String>>>,
    regex::Error,
>)
    ensures
        found is Ok <==> regex_accepts(pattern@),
        found matches Ok(matches) ==> matches.deep_view() == regex_groups(pattern@, text@),
{
    let re = regex::Regex::new(pattern)?;
    Ok(
        re.captures_iter(text).map(
            |caps| caps.iter().map(|group| group.map(|m| m.as_str().to_string())).collect(),
        ).collect(),
    )
}

/// An entity as the table holds it.
pub struct Entity {
    pub name: String,
    pub value: String,
}

impl View for Entity {
    type V = Declaration;

    open spec fn view(&self) -> Declaration {
        Declaration { name: self.name@, value: self.value@ }
    }
}

/// The entities that a document declares, in the order of their first
/// declaration.
pub struct EntityTable {
    entities: Vec<Entity>,
}

impl View for EntityTable {
    type V = Seq<Declaration>;

    closed spec fn view(&self) -> Seq<Declaration> {
        self.entities@.map_values(|e: Entity| e@)
    }
}

impl EntityTable {
    /// A table without declarations.
    pub fn new() -> (table: Self)
        ensures
            table@ == Seq::<Declaration>::empty(),
    {
        let table = EntityTable { entities: Vec::new() };
        assert(table@ =~= Seq::<Declaration>::empty());
        table
    }

    /// The number of declared names.
    pub fn len(&self) -> (n: usize)
        ensures
            n == self@.len(),
    {
        self.entities.len()
    }

    /// Declares `name` to stand for `value`, in place of what it stood for
    /// before.
    pub fn declare(&mut self, name: &str, value: &str)
        ensures
            final(self)@ == put(old(self)@, name@, value@),
    {
        let wanted = String::from_str(name);
        let mut found: bool = false;
        let mut i: usize = 0;
        let ghost before = self@;
        while i < self.entities.len()
            invariant
                i <= self.entities.len(),
                wanted@ == name@,
                self.entities@.len() == before.len(),
                found == declares(before.take(i as int), name@),
                forall|k: int|
                    0 <= k < i ==> (#[trigger] self.entities@[k])@ == if before[k].name == name@ {
                        Declaration { name: name@, value: value@ }
                    } else {
                        before[k]
                    },
                forall|k: int| i <= k < before.len() ==> (#[trigger] self.entities@[k])@ == before[k],
            decreases self.entities.len() - i,
        {
            let ghost prefix = before.take(i as int);
            let ghost longer = before.take(i + 1);
            let same = self.entities[i].name == wanted;
            assert(same == (before[i as int].name == name@));
            if same {
                self.entities.set(
                    i,
                    Entity { name: String::from_str(name), value: String::from_str(value) },
                );
                found = true;
            }
            proof {
                if declares(prefix, name@) {
                    let k = choose|k: int| 0 <= k < prefix.len() && (#[trigger] prefix[k]).name == name@;
                    assert(longer[k].name == name@);
                }
                if same {
                    assert(longer[i as int].name == name@);
                }
                if declares(longer, name@) {
                    let k = choose|k: int| 0 <= k < longer.len() && (#[trigger] longer[k]).name == name@;
                    if k < i {
                        assert(prefix[k].name == name@);
                    }
                }
            }
            i += 1;
        }
        assert(before.take(before.len() as int) == before);
        if !found {
            self.entities.push(
                Entity { name: String::from_str(name), value: String::from_str(value) },
            );
        }
        assert(self@ =~= put(before, name@, value@));
    }

    /// The table that the matches of the declaration pattern build.
    pub fn from_groups(matches: &Vec<Vec<Option<String>>>) -> (table: Self)
        ensures
            table@ == table_of(matches.deep_view()),
    {
        let mut table = EntityTable::new();
        let mut i: usize = 0;
        let ghost all = matches.deep_view();
        while i < matches.len()
            invariant
                i <= matches.len(),
                all == matches.deep_view(),
                table@ == table_of(all.take(i as int)),
            decreases matches.len() - i,
        {
            let groups = &matches[i];
            proof {
                assert(all.take(i + 1).drop_last() == all.take(i as int));
                assert(all.take(i + 1).last() == groups.deep_view());
                assert(groups.deep_view().len() == groups.len());
            }
            if groups.len() > 2 {
                assert(groups.deep_view()[1] == groups[1].deep_view());
                assert(groups.deep_view()[2] == groups[2].deep_view());
                match (&groups[1], &groups[2]) {
                    (Some(name), Some(value)) => {
                        table.declare(name.as_str(), value.as_str());
                    },
                    _ => {},
                }
            }
            i += 1;
        }
        assert(all.take(all.len() as int) == all);
        table
    }

    /// Finds the entity declarations of `xml` with a pattern of the
    /// caller's: a regular expression whose first group is the name and
    /// whose second group is the value. Fails where the matcher refuses
    /// the pattern.
    pub fn scan_with(pattern: &str, xml: &str) -> (found: Result<Self, DictError>)
        ensures
            found is Ok <==> regex_accepts(pattern@),
            found matches Ok(table) ==> table@ == table_of(regex_groups(pattern@, xml@)),
            found matches Err(e) ==> e == DictError::Pattern,
    {
        match capture_groups(pattern, xml) {
            Ok(matches) => Ok(EntityTable::from_groups(&matches)),
            Err(_) => Err(DictError::Pattern),
        }
    }

    /// Finds the entity declarations of `xml`.
    pub fn scan(xml: &str) -> (found: Result<Self, DictError>)
        ensures
            found is Ok <==> regex_accepts(ENTITY_PATTERN@),
            found matches Ok(table) ==> table@ == table_of(regex_groups(ENTITY_PATTERN@, xml@)),
            found matches Err(e) ==> e == DictError::Pattern,
    {
        EntityTable::scan_with(ENTITY_PATTERN, xml)
    }

    /// Whether every name and every value of the table is plain: no name
    /// holds an ampersand or a semicolon, no value an ampersand.
    pub fn is_plain(&self) -> (plain: bool)
        ensures
            plain == plain_table(self@),
    {
        let mut i: usize = 0;
        while i < self.entities.len()
            invariant
                i <= self.entities.len(),
                forall|k: int|
                    0 <= k < i ==> plain_name((#[trigger] self@[k]).name) && plain_value(
                        self@[k].value,
                    ),
            decreases self.entities.len() - i,
        {
            let entity = &self.entities[i];
            assert(self@[i as int] == entity@);
            if holds_char(entity.name.as_str(), '&') || holds_char(entity.name.as_str(), ';')
                || holds_char(entity.value.as_str(), '&') {
                return false;
            }
            i += 1;
        }
        true
    }

    /// The value that `name` stands for, where it is declared.
    pub fn value_of(&self, name: &str) -> (value: Option<String>)
        ensures
            match value {
                Some(text) => exists|i: int| first_named(self@, name@, i) && self@[i].value == text@,
                None => !declares(self@, name@),
            },
    {
        let wanted = String::from_str(name);
        let mut i: usize = 0;
        while i < self.entities.len()
            invariant
                i <= self.entities.len(),
                wanted@ == name@,
                forall|k: int| 0 <= k < i ==> (#[trigger] self@[k]).name != name@,
            decreases self.entities.len() - i,
        {
            if self.entities[i].name == wanted {
                assert(first_named(self@, name@, i as int));
                return Some(self.entities[i].value.clone());
            }
            i += 1;
        }
        None
    }

    /// Replaces in `text` every reference to a declared entity by the
    /// entity's value, one entity after the other in the order of the table.
    pub fn apply(&self, text: &str) -> (out: String)
        ensures
            out@ == substituted(text@, self@),
    {
        let mut current = to_chars(text);
        let mut i: usize = 0;
        while i < self.entities.len()
            invariant
                i <= self.entities.len(),
                current@ == substituted(text@, self@.take(i as int)),
            decreases self.entities.len() - i,
        {
            let entity = &self.entities[i];
            let mut reference: Vec<char> = Vec::new();
            reference.push('&');
            let mut name = to_chars(entity.name.as_str());
            reference.append(&mut name);
            reference.push(';');
            let value = to_chars(entity.value.as_str());
            proof {
                assert(self@.take(i + 1).drop_last() == self@.take(i as int));
                assert(self@.take(i + 1).last() == entity@);
                assert(reference@ == token(entity@.name));
            }
            current = replace_all(&current, &reference, &value);
            i += 1;
        }
        assert(self@.take(self@.len() as int) == self@);
        from_chars(&current)
    }
}

/// Rewrites `xml` so that no reference to an entity that it declares is
/// left for the parser: finds the declarations, then replaces each
/// reference by its value.
pub fn resolve_entities(xml: &str) -> (resolved: Result<String, DictError>)
    ensures
        resolved is Ok <==> regex_accepts(ENTITY_PATTERN@),
        resolved matches Ok(out) ==> out@ == substituted(
            xml@,
            table_of(regex_groups(ENTITY_PATTERN@, xml@)),
        ),
        resolved matches Ok(out) ==> (regex_groups(ENTITY_PATTERN@, xml@).len() == 0 ==> out@
            == xml@),
        resolved matches Err(e) ==> e == DictError::Pattern,
{
    match EntityTable::scan(xml) {
        Ok(table) => Ok(table.apply(xml)),
        Err(e) => Err(e),
    }
}

} // verus!
