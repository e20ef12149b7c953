//! Named texts that go along with a question.

use crate::text;
use crate::text::{cat3, cat5, chars_of, decimal_u64, same_str, trimmed};
use vstd::prelude::*;

verus! {

/// What stands before the text in what the assistant is told.
pub const CONTEXT_HEADER: &'static str = "Контекст вопроса:";

/// So many names are tried.
pub const NAMES_TRIED: u64 = 1000;

/// A text under its name.
#[derive(Debug, PartialEq)]
pub struct Item {
    pub name: String,
    pub text: String,
}

/// The texts, the one that is chosen, and whether it goes along.
#[derive(Debug, PartialEq)]
pub struct Contexts {
    pub enabled: bool,
    pub selected: String,
    pub items: Vec<Item>,
}

/// The names and texts of items.
pub open spec fn item_views(v: Seq<Item>) -> Seq<(Seq<char>, Seq<char>)> {
    v.map_values(|i: Item| (i.name@, i.text@))
}

/// The place of the first item with a name, from `i` on.
pub open spec fn place_of(items: Seq<(Seq<char>, Seq<char>)>, name: Seq<char>, i: int) -> Option<int>
    decreases items.len() - i,
{
    if i < 0 || i >= items.len() {
        None
    } else if items[i].0 == name {
        Some(i)
    } else {
        place_of(items, name, i + 1)
    }
}

/// An item has the name.
pub open spec fn taken(items: Seq<(Seq<char>, Seq<char>)>, name: Seq<char>) -> bool {
    place_of(items, name, 0) is Some
}

proof fn lemma_place(items: Seq<(Seq<char>, Seq<char>)>, name: Seq<char>, i: int)
    requires
        0 <= i,
    ensures
        match place_of(items, name, i) {
            Some(k) => i <= k < items.len() && items[k].0 == name && forall|j: int|
                i <= j < k ==> (#[trigger] items[j]).0 != name,
            None => forall|j: int| i <= j < items.len() ==> (#[trigger] items[j]).0 != name,
        },
    decreases items.len() - i,
{
    if i < items.len() {
        lemma_place(items, name, i + 1);
    }
}

/// The text that is chosen, where it is not only white space.
pub open spec fn selected_of(items: Seq<(Seq<char>, Seq<char>)>, selected: Seq<char>) -> Option<
    Seq<char>,
> {
    match place_of(items, selected, 0) {
        Some(i) => if text::trim_of(items[i].1).len() > 0 {
            Some(items[i].1)
        } else {
            None
        },
        None => None,
    }
}

/// The items after a text was put under a name.
pub open spec fn upserted(
    items: Seq<(Seq<char>, Seq<char>)>,
    name: Seq<char>,
    text: Seq<char>,
) -> Seq<(Seq<char>, Seq<char>)> {
    match place_of(items, name, 0) {
        Some(i) => items.update(i, (name, text)),
        None => items.push((name, text)),
    }
}

/// The items that have another name.
pub open spec fn without(items: Seq<(Seq<char>, Seq<char>)>, name: Seq<char>) -> Seq<
    (Seq<char>, Seq<char>),
>
    decreases items.len(),
{
    if items.len() == 0 {
        items
    } else if items.last().0 == name {
        without(items.drop_last(), name)
    } else {
        without(items.drop_last(), name).push(items.last())
    }
}

/// The name that is tried at number `n`, from 2 on.
pub open spec fn numbered(base: Seq<char>, n: nat) -> Seq<char> {
    base + " "@ + text::decimal_of(n)
}

/// The first name that is free, from number `n` on; the plain one where none
/// is.
pub open spec fn free_from(items: Seq<(Seq<char>, Seq<char>)>, base: Seq<char>, n: int) -> Seq<char>
    decreases NAMES_TRIED - n,
{
    if n < 0 || n >= NAMES_TRIED {
        base
    } else if !taken(items, numbered(base, n as nat)) {
        numbered(base, n as nat)
    } else {
        free_from(items, base, n + 1)
    }
}

/// A name like the one that is wanted that no item has.
pub open spec fn free_name_of(items: Seq<(Seq<char>, Seq<char>)>, wanted: Seq<char>) -> Seq<char> {
    let base = if text::trim_of(wanted).len() == 0 {
        "контекст"@
    } else {
        text::trim_of(wanted)
    };
    if !taken(items, base) {
        base
    } else {
        free_from(items, base, 2)
    }
}

/// What was put under a name is what is chosen, where it is not only white
/// space.
pub proof fn upsert_is_selected(
    items: Seq<(Seq<char>, Seq<char>)>,
    name: Seq<char>,
    text: Seq<char>,
)
    ensures
        selected_of(upserted(items, name, text), name) == if text::trim_of(text).len() > 0 {
            Some(text)
        } else {
            None
        },
{
    lemma_place(items, name, 0);
    let r = upserted(items, name, text);
    lemma_place(r, name, 0);
    match place_of(items, name, 0) {
        Some(i) => {
            assert(r[i] == (name, text));
            let k = place_of(r, name, 0)->Some_0;
            if k < i {
                assert(items[k].0 == r[k].0);
            }
        },
        None => {
            assert(r[items.len() as int] == (name, text));
            let k = place_of(r, name, 0)->Some_0;
            if k < items.len() {
                assert(items[k] == r[k]);
            }
        },
    }
}

/// To put a text under a name leaves the other texts as they are.
pub proof fn upsert_leaves_others(
    items: Seq<(Seq<char>, Seq<char>)>,
    name: Seq<char>,
    text: Seq<char>,
    other: Seq<char>,
)
    requires
        other != name,
    ensures
        selected_of(upserted(items, name, text), other) == selected_of(items, other),
{
    lemma_place(items, name, 0);
    lemma_place(items, other, 0);
    let r = upserted(items, name, text);
    lemma_place(r, other, 0);
    match place_of(items, other, 0) {
        Some(i) => {
            assert(r[i].0 == other);
            let k = place_of(r, other, 0)->Some_0;
            if k < i {
                assert(items[k].0 != other);
            }
        },
        None => {
            match place_of(r, other, 0) {
                Some(k) => {
                    if k < items.len() {
                        assert(items[k].0 != other);
                    }
                },
                None => {},
            }
        },
    }
}

/// No item has the name that was taken out.
pub proof fn removed_is_gone(items: Seq<(Seq<char>, Seq<char>)>, name: Seq<char>)
    ensures
        !taken(without(items, name), name),
    decreases items.len(),
{
    if items.len() > 0 {
        removed_is_gone(items.drop_last(), name);
        let r = without(items, name);
        lemma_place(without(items.drop_last(), name), name, 0);
        lemma_place(r, name, 0);
    } else {
        lemma_place(items, name, 0);
    }
}

/// To take out a name takes out what is under it and nothing else, and leaves the
/// others in their order.
pub proof fn others_stay_when_one_is_removed(
    a: Seq<(Seq<char>, Seq<char>)>,
    it: (Seq<char>, Seq<char>),
    b: Seq<(Seq<char>, Seq<char>)>,
    name: Seq<char>,
)
    ensures
        it.0 != name ==> without(a + seq![it] + b, name) == without(a, name) + seq![it] + without(
            b,
            name,
        ),
        it.0 == name ==> without(a + seq![it] + b, name) == without(a, name) + without(b, name),
    decreases b.len(),
{
    let s = a + seq![it] + b;
    if b.len() > 0 {
        others_stay_when_one_is_removed(a, it, b.drop_last(), name);
        assert(s.drop_last() =~= a + seq![it] + b.drop_last());
        assert(s.last() == b.last());
        if it.0 != name {
            assert(without(s, name) =~= without(a, name) + seq![it] + without(b, name));
        } else {
            assert(without(s, name) =~= without(a, name) + without(b, name));
        }
    } else {
        assert(s.drop_last() =~= a && s.last() == it);
        if it.0 != name {
            assert(without(s, name) =~= without(a, name) + seq![it] + without(b, name));
        } else {
            assert(without(s, name) =~= without(a, name) + without(b, name));
        }
    }
}

/// The name that is chosen once `name` was taken out and `left` are left.
pub open spec fn chosen_after(
    selected: Seq<char>,
    name: Seq<char>,
    left: Seq<(Seq<char>, Seq<char>)>,
) -> Seq<char> {
    if selected != name {
        selected
    } else if left.len() > 0 {
        left[0].0
    } else {
        Seq::empty()
    }
}

/// The text that goes along with a question.
pub open spec fn active_of(
    enabled: bool,
    items: Seq<(Seq<char>, Seq<char>)>,
    selected: Seq<char>,
) -> Option<Seq<char>> {
    if enabled {
        selected_of(items, selected)
    } else {
        None
    }
}

/// Nothing goes along while that is switched off, and otherwise the text that is
/// under the chosen name, and not only white space. A choice stays while it is
/// there, and where it is taken out another that is left is chosen.
pub proof fn chosen_text_goes_along(
    items: Seq<(Seq<char>, Seq<char>)>,
    selected: Seq<char>,
    name: Seq<char>,
    i: int,
)
    ensures
        active_of(false, items, selected) is None,
        0 <= i < items.len() && items[i].0 == selected && (forall|j: int|
            0 <= j < i ==> (#[trigger] items[j]).0 != selected) ==> active_of(true, items, selected)
            == if text::trim_of(items[i].1).len() > 0 {
            Some(items[i].1)
        } else {
            None
        },
        selected != name ==> chosen_after(selected, name, without(items, name)) == selected,
        without(items, name).len() > 0 ==> taken(without(items, name), selected) || selected == name
            ==> taken(
            without(items, name),
            chosen_after(selected, name, without(items, name)),
        ),
        without(items, name).len() == 0 ==> chosen_after(name, name, without(items, name)).len()
            == 0,
{
    lemma_place(items, selected, 0);
    let left = without(items, name);
    if left.len() > 0 {
        lemma_place(left, chosen_after(selected, name, left), 0);
        if selected == name {
            assert(left[0].0 == chosen_after(selected, name, left));
        }
    }
}

/// A name that is handed out is the wanted one where no item has it, and
/// otherwise that one with a number; no item has it, unless every number was
/// taken.
pub proof fn free_name_is_free(items: Seq<(Seq<char>, Seq<char>)>, wanted: Seq<char>, n: nat)
    requires
        wanted.len() > 0 && text::trim_of(wanted) == wanted,
    ensures
        !taken(items, wanted) ==> free_name_of(items, wanted) == wanted,
        2 <= n < 1000 && !taken(items, numbered(wanted, n)) ==> !taken(
            items,
            free_name_of(items, wanted),
        ),
        text::starts_of(free_name_of(items, wanted), wanted),
{
    assert(wanted.subrange(0, wanted.len() as int) =~= wanted);
    lemma_free_from(items, wanted, 2, n);
}

proof fn lemma_free_from(items: Seq<(Seq<char>, Seq<char>)>, base: Seq<char>, from: int, n: nat)
    requires
        2 <= from,
    ensures
        from <= n < 1000 && !taken(items, numbered(base, n)) ==> !taken(
            items,
            free_from(items, base, from),
        ),
        text::starts_of(free_from(items, base, from), base),
    decreases 1000 - from,
{
    assert(base.subrange(0, base.len() as int) =~= base);
    if from < 1000 {
        lemma_free_from(items, base, from + 1, n);
        let name = numbered(base, from as nat);
        assert(name.subrange(0, base.len() as int) =~= base);
    }
}

impl Default for Contexts {
    fn default() -> (r: Contexts)
        ensures
            !r.enabled,
            r.selected@ == Seq::<char>::empty(),
            r.items@ == Seq::<Item>::empty(),
    {
        let r = Contexts { enabled: false, selected: String::new(), items: Vec::new() };
        assert(r.selected@ =~= Seq::empty());
        r
    }
}

fn find_place(items: &Vec<Item>, name: &str) -> (r: Option<usize>)
    ensures
        match r {
            Some(i) => i < items@.len() && place_of(item_views(items@), name@, 0) == Some(i as int),
            None => place_of(item_views(items@), name@, 0) is None,
        },
{
    let ghost all = item_views(items@);
    let mut i: usize = 0;
    while i < items.len()
        invariant
            i <= items@.len(),
            all == item_views(items@),
            place_of(all, name@, 0) == place_of(all, name@, i as int),
        decreases items.len() - i,
    {
        assert(all[i as int] == (items@[i as int].name@, items@[i as int].text@));
        if same_str(items[i].name.as_str(), name) {
            return Some(i);
        }
        i = i + 1;
    }
    None
}

impl Contexts {
    /// The text that is chosen, where it is not only white space.
    pub fn selected_text(&self) -> (r: Option<&str>)
        ensures
            text::opt_str(r) == selected_of(item_views(self.items@), self.selected@),
    {
        match find_place(&self.items, self.selected.as_str()) {
            Some(i) => {
                assert(item_views(self.items@)[i as int].1 == self.items@[i as int].text@);
                if chars_of(trimmed(self.items[i].text.as_str()).as_str()).len() > 0 {
                    Some(self.items[i].text.as_str())
                } else {
                    None
                }
            },
            None => None,
        }
    }

    /// The text that goes along with a question.
    pub fn active_text(&self) -> (r: Option<&str>)
        ensures
            text::opt_str(r) == active_of(
                self.enabled,
                item_views(self.items@),
                self.selected@,
            ),
    {
        if self.enabled {
            self.selected_text()
        } else {
            None
        }
    }

    /// A name like the one that is wanted that no item has.
    pub fn free_name(&self, wanted: &str) -> (r: String)
        ensures
            r@ == free_name_of(item_views(self.items@), wanted@),
    {
        let t = trimmed(wanted);
        let base = if chars_of(t.as_str()).len() == 0 {
            "контекст".to_owned()
        } else {
            t
        };
        if find_place(&self.items, base.as_str()).is_none() {
            return base;
        }
        let ghost all = item_views(self.items@);
        let mut n: u64 = 2;
        while n < NAMES_TRIED
            invariant
                2 <= n <= NAMES_TRIED,
                all == item_views(self.items@),
                free_name_of(all, wanted@) == free_from(all, base@, n as int),
            decreases NAMES_TRIED - n,
        {
            let candidate = cat3(base.as_str(), " ", decimal_u64(n).as_str());
            if find_place(&self.items, candidate.as_str()).is_none() {
                return candidate;
            }
            n = n + 1;
        }
        base
    }

    /// Puts a text under a name, and chooses it.
    pub fn upsert(&mut self, name: String, text: String)
        ensures
            item_views(final(self).items@) == upserted(item_views(old(self).items@), name@, text@),
            final(self).selected@ == name@,
            final(self).enabled == old(self).enabled,
    {
        let ghost before = item_views(self.items@);
        match find_place(&self.items, name.as_str()) {
            Some(i) => {
                self.items.set(i, Item { name: name.clone(), text });
                assert(item_views(self.items@) =~= before.update(i as int, (name@, text@)));
            },
            None => {
                self.items.push(Item { name: name.clone(), text });
                assert(item_views(self.items@) =~= before.push((name@, text@)));
            },
        }
        self.selected = name;
    }

    /// Takes out what is under a name. Where it was chosen, the first of the
    /// others is.
    pub fn remove(&mut self, name: &str)
        ensures
            ({
                let left = without(item_views(old(self).items@), name@);
                &&& item_views(final(self).items@) == left
                &&& final(self).selected@ == chosen_after(old(self).selected@, name@, left)
            }),
            final(self).enabled == old(self).enabled,
    {
        let ghost all = item_views(self.items@);
        let mut kept: Vec<Item> = Vec::new();
        let mut i: usize = 0;
        assert(all.take(0) =~= Seq::empty());
        assert(item_views(kept@) =~= Seq::empty());
        while i < self.items.len()
            invariant
                i <= self.items@.len(),
                *self == *old(self),
                all == item_views(self.items@),
                item_views(kept@) == without(all.take(i as int), name@),
            decreases self.items.len() - i,
        {
            let ghost was = item_views(kept@);
            let ghost it = (self.items@[i as int].name@, self.items@[i as int].text@);
            assert(all.take(i + 1).drop_last() =~= all.take(i as int));
            assert(all.take(i + 1).last() == it);
            if !same_str(self.items[i].name.as_str(), name) {
                kept.push(
                    Item { name: self.items[i].name.clone(), text: self.items[i].text.clone() },
                );
                assert(item_views(kept@) =~= was.push(it));
            }
            i = i + 1;
        }
        assert(all.take(all.len() as int) =~= all);
        self.items = kept;
        if same_str(self.selected.as_str(), name) {
            if self.items.len() > 0 {
                assert(item_views(self.items@)[0].0 == self.items@[0].name@);
                self.selected = self.items[0].name.clone();
            } else {
                self.selected = String::new();
                assert(self.selected@ =~= Seq::empty());
            }
        }
    }
}

/// What the assistant is told before the question.
pub open spec fn compose_of(prompt: Seq<char>, context: Option<Seq<char>>) -> Seq<char> {
    let p = text::trim_of(prompt);
    match context {
        Some(c) if text::trim_of(c).len() > 0 => if p.len() == 0 {
            CONTEXT_HEADER@ + "\n"@ + text::trim_of(c)
        } else {
            p + "\n\n"@ + CONTEXT_HEADER@ + "\n"@ + text::trim_of(c)
        },
        _ => p,
    }
}

/// The assistant is told the prompt first and then the text that goes along,
/// both whole, with a heading between them; without such a text the prompt alone,
/// and without a prompt the text alone under its heading.
pub proof fn prompt_stands_before_the_text(prompt: Seq<char>, context: Seq<char>)
    requires
        text::trim_of(prompt) == prompt,
        context.len() > 0 && text::trim_of(context) == context,
    ensures
        compose_of(prompt, None) == prompt,
        compose_of(prompt, Some(Seq::empty())) == prompt,
        text::starts_of(compose_of(prompt, Some(context)), prompt),
        text::ends_of(compose_of(prompt, Some(context)), "Контекст вопроса:"@ + "\n"@ + context),
        prompt.len() > 0 ==> compose_of(prompt, Some(context)) == prompt + "\n\n"@ + compose_of(
            Seq::empty(),
            Some(context),
        ),
{
    let all = compose_of(prompt, Some(context));
    let tail = "Контекст вопроса:"@ + "\n"@ + context;
    assert(all.subrange(0, prompt.len() as int) =~= prompt);
    assert(all.subrange(all.len() - tail.len(), all.len() as int) =~= tail);
    if prompt.len() > 0 {
        assert(all =~= prompt + "\n\n"@ + compose_of(Seq::empty(), Some(context)));
    }
}

/// What the assistant is told before the question: the prompt, and the text
/// that goes along.
pub fn compose_system(prompt: &str, context: Option<&str>) -> (r: String)
    ensures
        r@ == compose_of(prompt@, text::opt_str(context)),
{
    let p = trimmed(prompt);
    match context {
        Some(c) => {
            let t = trimmed(c);
            if chars_of(t.as_str()).len() == 0 {
                p
            } else if chars_of(p.as_str()).len() == 0 {
                cat3(CONTEXT_HEADER, "\n", t.as_str())
            } else {
                cat5(p.as_str(), "\n\n", CONTEXT_HEADER, "\n", t.as_str())
            }
        },
        None => p,
    }
}

} // verus!
