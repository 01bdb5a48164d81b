//! The shell's variables: a map from names to values, kept in ascending
//! order of names, as the shell lists them.
use crate::order::{
    ascending,
    char_lists,
    lemma_ascending_of_sorted,
    lemma_strictly_sorted_no_duplicates,
    strictly_sorted,
};
use crate::text::{
    chars_equal,
    chars_of,
    compare_chars,
    lemma_less_irreflexive,
    lemma_less_total,
    lemma_less_transitive,
    seq_less,
    string_from,
    Order,
};
use vstd::prelude::*;

verus! {

/// A map from variable names to their values.
pub struct Variables {
    names: Vec<Vec<char>>,
    values: Vec<Vec<char>>,
}

/// The line that lists one variable: its name, `=`, its value.
pub open spec fn variable_line(name: Seq<char>, value: Seq<char>) -> Seq<char> {
    name + seq!['='] + value
}

/// The map after the shell assigns `value` to `name`: an empty name changes
/// nothing, an empty value removes the variable, any other value replaces it.
pub open spec fn assigned(
    m: Map<Seq<char>, Seq<char>>,
    name: Seq<char>,
    value: Seq<char>,
) -> Map<Seq<char>, Seq<char>> {
    if name.len() == 0 {
        m
    } else if value.len() == 0 {
        m.remove(name)
    } else {
        m.insert(name, value)
    }
}

impl View for Variables {
    type V = Map<Seq<char>, Seq<char>>;

    closed spec fn view(&self) -> Map<Seq<char>, Seq<char>> {
        Map::new(
            |k: Seq<char>| self.name_list().contains(k),
            |k: Seq<char>| self.value_list()[self.name_list().index_of(k)],
        )
    }
}

impl Variables {
    /// The names, in the order in which they are kept.
    pub closed spec fn name_list(&self) -> Seq<Seq<char>> {
        char_lists(self.names@)
    }

    /// The values, in the order of their names.
    pub closed spec fn value_list(&self) -> Seq<Seq<char>> {
        char_lists(self.values@)
    }

    /// The store is well formed: one value per name, names strictly ascending.
    #[verifier::type_invariant]
    spec fn wf(&self) -> bool {
        &&& self.names.len() == self.values.len()
        &&& strictly_sorted(self.name_list())
    }

    proof fn lemma_entry(&self, i: int)
        requires
            self.wf(),
            0 <= i < self.names.len(),
        ensures
            self@.contains_key(self.name_list()[i]),
            self@[self.name_list()[i]] == self.value_list()[i],
    {
        let l = self.name_list();
        lemma_strictly_sorted_no_duplicates(l);
        assert(l.contains(l[i]));
        let j: int = l.index_of(l[i]);
        assert(0 <= j < l.len() && l[j] == l[i]);
    }

    proof fn lemma_domain(&self)
        requires
            self.wf(),
        ensures
            self@.dom() == self.name_list().to_set(),
            self@.dom().finite(),
            ascending(self@.dom()) == self.name_list(),
            self@.dom().len() == self.names.len(),
    {
        assert(self@.dom() =~= self.name_list().to_set());
        lemma_ascending_of_sorted(self.name_list());
        lemma_strictly_sorted_no_duplicates(self.name_list());
        self.name_list().unique_seq_to_set();
    }

    /// An empty store.
    pub fn new() -> (v: Variables)
        ensures
            v@ == Map::<Seq<char>, Seq<char>>::empty(),
    {
        let v = Variables { names: Vec::new(), values: Vec::new() };
        assert(v@ =~= Map::<Seq<char>, Seq<char>>::empty());
        v
    }

    /// The number of variables.
    pub fn len(&self) -> (n: usize)
        ensures
            n == self@.len(),
    {
        proof {
            use_type_invariant(self);
        }
        proof {
            self.lemma_domain();
        }
        self.names.len()
    }

    /// Whether there is no variable.
    pub fn is_empty(&self) -> (b: bool)
        ensures
            b == (self@.len() == 0),
    {
        proof {
            use_type_invariant(self);
        }
        proof {
            self.lemma_domain();
        }
        self.names.len() == 0
    }

    /// Whether the name at position `i` comes before `name`.
    fn name_before(&self, i: usize, name: &[char]) -> (b: bool)
        requires
            i < self.names.len(),
        ensures
            b == seq_less(self.name_list()[i as int], name@),
    {
        match compare_chars(self.names[i].as_slice(), name) {
            Order::Less => true,
            _ => false,
        }
    }

    /// The first position whose name does not come before `name`.
    fn position(&self, name: &[char]) -> (pos: usize)
        requires
            self.wf(),
        ensures
            pos <= self.names.len(),
            forall|j: int| 0 <= j < pos ==> seq_less(#[trigger] self.name_list()[j], name@),
            pos < self.names.len() ==> !seq_less(self.name_list()[pos as int], name@),
            self.name_list().contains(name@) <==> (pos < self.names.len()
                && self.name_list()[pos as int] == name@),
    {
        let mut i: usize = 0;
        while i < self.names.len() && self.name_before(i, name)
            invariant
                self.wf(),
                i <= self.names.len(),
                forall|j: int| 0 <= j < i ==> seq_less(#[trigger] self.name_list()[j], name@),
            decreases self.names.len() - i,
        {
            i = i + 1;
        }
        proof {
            let l = self.name_list();
            if l.contains(name@) {
                let k: int = choose|k: int| 0 <= k < l.len() && l[k] == name@;
                if k < i {
                    assert(seq_less(l[k], name@));
                    lemma_less_irreflexive(name@);
                }
                if k > i {
                    assert(i < self.names.len());
                    assert(seq_less(l[i as int], l[k]));
                    lemma_less_total(l[i as int], name@);
                }
            }
        }
        i
    }

    /// The value of the variable `name`, if it is set.
    pub fn get(&self, name: &str) -> (r: Option<String>)
        ensures
            r is Some <==> self@.contains_key(name@),
            r matches Some(v) ==> v@ == self@[name@],
    {
        proof {
            use_type_invariant(self);
        }
        let n = chars_of(name);
        let pos: usize = self.position(n.as_slice());
        if pos < self.names.len() && chars_equal(self.names[pos].as_slice(), n.as_slice()) {
            proof {
                self.lemma_entry(pos as int);
            }
            Some(string_from(self.values[pos].as_slice()))
        } else {
            None
        }
    }

    /// Whether the variable `name` is set.
    pub fn contains(&self, name: &str) -> (b: bool)
        ensures
            b == self@.contains_key(name@),
    {
        proof {
            use_type_invariant(self);
        }
        let n = chars_of(name);
        let pos: usize = self.position(n.as_slice());
        pos < self.names.len() && chars_equal(self.names[pos].as_slice(), n.as_slice())
    }

    /// Sets the variable `name` to `value`, whether it was set or not.
    pub fn insert(&mut self, name: &str, value: &str)
        ensures
            final(self)@ == old(self)@.insert(name@, value@),
    {
        proof {
            use_type_invariant(&*self);
        }
        let n = chars_of(name);
        let v = chars_of(value);
        let pos: usize = self.position(n.as_slice());
        let ghost old_names = self.name_list();
        let ghost old_values = self.value_list();
        let ghost old_view = self@;
        let found = pos < self.names.len() && chars_equal(self.names[pos].as_slice(), n.as_slice());
        let mut taken = Variables::new();
        std::mem::swap(self, &mut taken);
        proof {
            use_type_invariant(&taken);
        }
        let Variables { mut names, mut values } = taken;
        if found {
            values.set(pos, v);
            *self = Variables { names, values };
            proof {
                assert(self.name_list() == old_names);
                assert(self.value_list() =~= old_values.update(pos as int, value@));
                assert forall|k: Seq<char>| #[trigger]
                    self@.contains_key(k) == old_view.insert(name@, value@).contains_key(k) by {}
                assert forall|k: Seq<char>| self@.contains_key(k) implies #[trigger] self@[k]
                    == old_view.insert(name@, value@)[k] by {
                    let i: int = choose|i: int| 0 <= i < old_names.len() && old_names[i] == k;
                    self.lemma_entry(i);
                    if i != pos {
                        lemma_strictly_sorted_no_duplicates(old_names);
                        old(self).lemma_entry(i);
                    }
                }
                assert(self@ =~= old_view.insert(name@, value@));
            }
        } else {
            names.insert(pos, n);
            values.insert(pos, v);
            proof {
                let l = char_lists(names@);
                assert(l =~= old_names.insert(pos as int, name@));
                assert(char_lists(values@) =~= old_values.insert(pos as int, value@));
                assert forall|i: int, j: int| 0 <= i < j < l.len() implies seq_less(
                    #[trigger] l[i],
                    #[trigger] l[j],
                ) by {
                    if j < pos {
                    } else if j == pos {
                    } else if i < pos {
                        assert(seq_less(l[i], name@));
                        assert(!seq_less(old_names[pos as int], name@));
                        lemma_less_total(old_names[pos as int], name@);
                        if pos + 1 < j {
                            assert(seq_less(old_names[pos as int], old_names[j - 1]));
                            lemma_less_transitive(name@, old_names[pos as int], l[j]);
                        }
                        lemma_less_transitive(l[i], name@, l[j]);
                    } else if i == pos {
                        assert(!seq_less(old_names[pos as int], name@));
                        lemma_less_total(old_names[pos as int], name@);
                        if pos + 1 < j {
                            assert(seq_less(old_names[pos as int], old_names[j - 1]));
                            lemma_less_transitive(name@, old_names[pos as int], l[j]);
                        }
                    } else {
                        assert(l[i] == old_names[i - 1]);
                        assert(l[j] == old_names[j - 1]);
                    }
                }
            }
            *self = Variables { names, values };
            proof {
                let l = self.name_list();
                assert forall|k: Seq<char>| #[trigger]
                    self@.contains_key(k) == old_view.insert(name@, value@).contains_key(k) by {
                    if k != name@ && old_names.contains(k) {
                        let i: int = choose|i: int| 0 <= i < old_names.len() && old_names[i] == k;
                        if i < pos {
                            assert(l[i] == k);
                        } else {
                            assert(l[i + 1] == k);
                        }
                    }
                    if l.contains(k) && k != name@ {
                        let i: int = choose|i: int| 0 <= i < l.len() && l[i] == k;
                        if i < pos {
                            assert(old_names[i] == k);
                        } else {
                            assert(old_names[i - 1] == k);
                        }
                    }
                    assert(l[pos as int] == name@);
                }
                assert forall|k: Seq<char>| self@.contains_key(k) implies #[trigger] self@[k]
                    == old_view.insert(name@, value@)[k] by {
                    let i: int = choose|i: int| 0 <= i < l.len() && l[i] == k;
                    self.lemma_entry(i);
                    if i < pos {
                        old(self).lemma_entry(i);
                        lemma_strictly_sorted_no_duplicates(l);
                    } else if i > pos {
                        old(self).lemma_entry(i - 1);
                        lemma_strictly_sorted_no_duplicates(l);
                    }
                }
                assert(self@ =~= old_view.insert(name@, value@));
            }
        }
    }

    /// Unsets the variable `name`; nothing changes if it was not set.
    pub fn remove(&mut self, name: &str)
        ensures
            final(self)@ == old(self)@.remove(name@),
    {
        proof {
            use_type_invariant(&*self);
        }
        let n = chars_of(name);
        let pos: usize = self.position(n.as_slice());
        let ghost old_names = self.name_list();
        let ghost old_values = self.value_list();
        let ghost old_view = self@;
        if pos < self.names.len() && chars_equal(self.names[pos].as_slice(), n.as_slice()) {
            let mut taken = Variables::new();
            std::mem::swap(self, &mut taken);
            proof {
                use_type_invariant(&taken);
            }
            let Variables { mut names, mut values } = taken;
            names.remove(pos);
            values.remove(pos);
            proof {
                let l = char_lists(names@);
                assert(l =~= old_names.remove(pos as int));
                assert(char_lists(values@) =~= old_values.remove(pos as int));
                assert forall|i: int, j: int| 0 <= i < j < l.len() implies seq_less(
                    #[trigger] l[i],
                    #[trigger] l[j],
                ) by {
                    let oi: int = if i < pos { i } else { i + 1 };
                    let oj: int = if j < pos { j } else { j + 1 };
                    assert(l[i] == old_names[oi] && l[j] == old_names[oj]);
                }
            }
            *self = Variables { names, values };
            proof {
                let l = self.name_list();
                lemma_strictly_sorted_no_duplicates(old_names);
                assert forall|k: Seq<char>| #[trigger]
                    self@.contains_key(k) == old_view.remove(name@).contains_key(k) by {
                    if k != name@ && old_names.contains(k) {
                        let i: int = choose|i: int| 0 <= i < old_names.len() && old_names[i] == k;
                        if i < pos {
                            assert(l[i] == k);
                        } else {
                            assert(l[i - 1] == k);
                        }
                    }
                    if l.contains(k) {
                        let i: int = choose|i: int| 0 <= i < l.len() && l[i] == k;
                        if i < pos {
                            assert(old_names[i] == k);
                        } else {
                            assert(old_names[i + 1] == k);
                        }
                    }
                }
                assert forall|k: Seq<char>| self@.contains_key(k) implies #[trigger] self@[k]
                    == old_view.remove(name@)[k] by {
                    let i: int = choose|i: int| 0 <= i < l.len() && l[i] == k;
                    self.lemma_entry(i);
                    if i < pos {
                        old(self).lemma_entry(i);
                    } else {
                        old(self).lemma_entry(i + 1);
                    }
                }
                assert(self@ =~= old_view.remove(name@));
            }
        } else {
            proof {
                assert(old_view.remove(name@) =~= old_view);
            }
        }
    }

    /// One line per variable, `name=value`, in ascending order of names.
    pub fn lines(&self) -> (r: Vec<String>)
        ensures
            r.len() == self@.len(),
            forall|i: int|
                0 <= i < r.len() ==> #[trigger] r[i]@ == variable_line(
                    ascending(self@.dom())[i],
                    self@[ascending(self@.dom())[i]],
                ),
    {
        proof {
            use_type_invariant(self);
        }
        proof {
            self.lemma_domain();
        }
        let mut r: Vec<String> = Vec::new();
        let mut i: usize = 0;
        while i < self.names.len()
            invariant
                self.wf(),
                i <= self.names.len(),
                r.len() == i,
                ascending(self@.dom()) == self.name_list(),
                forall|j: int|
                    0 <= j < i ==> #[trigger] r[j]@ == variable_line(
                        self.name_list()[j],
                        self.value_list()[j],
                    ),
            decreases self.names.len() - i,
        {
            let mut line: Vec<char> = self.names[i].clone();
            line.push('=');
            let mut k: usize = 0;
            let ghost prefix = line@;
            while k < self.values[i].len()
                invariant
                    i < self.names.len(),
                    self.names.len() == self.values.len(),
                    k <= self.values[i as int].len(),
                    line@ == prefix + self.values[i as int]@.take(k as int),
                decreases self.values[i as int].len() - k,
            {
                line.push(self.values[i][k]);
                proof {
                    assert(line@ =~= prefix + self.values[i as int]@.take(k + 1));
                }
                k = k + 1;
            }
            proof {
                assert(self.names[i as int]@ == self.name_list()[i as int]);
                assert(line@ =~= variable_line(self.name_list()[i as int], self.value_list()[i as int]));
            }
            r.push(string_from(line.as_slice()));
            i = i + 1;
        }
        proof {
            assert forall|j: int| 0 <= j < r.len() implies #[trigger] r[j]@ == variable_line(
                ascending(self@.dom())[j],
                self@[ascending(self@.dom())[j]],
            ) by {
                self.lemma_entry(j);
            }
        }
        r
    }
}

/// Assigns `value` to the variable `name`, as the shell does for `name=value`,
/// for `read` and for the exit status of a command: an empty name is ignored,
/// an empty value unsets the variable.
pub fn set_var(variables: &mut Variables, name: &str, value: &str)
    ensures
        final(variables)@ == assigned(old(variables)@, name@, value@),
{
    if name.is_empty() {
        return ;
    }
    if value.is_empty() {
        variables.remove(name);
    } else {
        variables.insert(name, value);
    }
}

/// Reading a variable gives back what was last assigned to it, when neither
/// the name nor the value is empty.
pub proof fn law_assign_then_read(m: Map<Seq<char>, Seq<char>>, name: Seq<char>, value: Seq<char>)
    requires
        name.len() > 0,
        value.len() > 0,
    ensures
        assigned(m, name, value).contains_key(name),
        assigned(m, name, value)[name] == value,
{
}

/// Assigning the empty value to a variable unsets it.
pub proof fn law_assign_empty_unsets(m: Map<Seq<char>, Seq<char>>, name: Seq<char>)
    ensures
        !assigned(m, name, Seq::empty()).contains_key(name) || name.len() == 0,
{
}

/// Assigning with an empty name changes nothing.
pub proof fn law_assign_empty_name(m: Map<Seq<char>, Seq<char>>, value: Seq<char>)
    ensures
        assigned(m, Seq::empty(), value) == m,
{
}

/// An assignment leaves every other variable as it was.
pub proof fn law_assign_keeps_others(
    m: Map<Seq<char>, Seq<char>>,
    name: Seq<char>,
    value: Seq<char>,
    other: Seq<char>,
)
    requires
        other != name,
    ensures
        assigned(m, name, value).contains_key(other) == m.contains_key(other),
        m.contains_key(other) ==> assigned(m, name, value)[other] == m[other],
{
}

/// Of two assignments to the same variable, the last one wins.
pub proof fn law_assign_last_wins(
    m: Map<Seq<char>, Seq<char>>,
    name: Seq<char>,
    first: Seq<char>,
    second: Seq<char>,
)
    ensures
        assigned(assigned(m, name, first), name, second) == assigned(m, name, second),
{
    if name.len() > 0 {
        if second.len() == 0 {
            if first.len() == 0 {
                assert(m.remove(name).remove(name) =~= m.remove(name));
            } else {
                assert(m.insert(name, first).remove(name) =~= m.remove(name));
            }
        } else {
            if first.len() == 0 {
                assert(m.remove(name).insert(name, second) =~= m.insert(name, second));
            } else {
                assert(m.insert(name, first).insert(name, second) =~= m.insert(name, second));
            }
        }
    }
}

/// A store whose variables all hold non-empty values keeps that property
/// through assignments: the shell never stores an empty value.
pub proof fn law_assign_no_empty_values(
    m: Map<Seq<char>, Seq<char>>,
    name: Seq<char>,
    value: Seq<char>,
)
    requires
        forall|k: Seq<char>| #[trigger] m.contains_key(k) ==> m[k].len() > 0,
    ensures
        forall|k: Seq<char>| #[trigger]
            assigned(m, name, value).contains_key(k) ==> assigned(m, name, value)[k].len() > 0,
{
}

} // verus!
