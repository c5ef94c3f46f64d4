//! A name that is still free for a received file.

use crate::decimal::{decimal, lemma_decimal_injective, push_decimal};
use vstd::prelude::*;
use vstd::string::{StrSliceExecFns, StringExecFns};

verus! {

/// Where the last dot of a name stands, or before its beginning where there is none.
pub open spec fn last_dot(name: Seq<char>) -> int
    decreases name.len(),
{
    if name.len() == 0 {
        -1
    } else if name.last() == '.' {
        name.len() - 1
    } else {
        last_dot(name.drop_last())
    }
}

/// Whether a name has an extension: there is a dot in it that does not begin it, and it does not
/// stand for a directory.
pub open spec fn has_extension(name: Seq<char>) -> bool {
    last_dot(name) > 0 && name != ".."@
}

/// A name without its extension.
pub open spec fn stem(name: Seq<char>) -> Seq<char> {
    if has_extension(name) {
        name.take(last_dot(name))
    } else {
        name
    }
}

/// What follows the last dot of a name that has an extension.
pub open spec fn extension(name: Seq<char>) -> Option<Seq<char>> {
    if has_extension(name) {
        Some(name.skip(last_dot(name) + 1))
    } else {
        None
    }
}

/// The `n`th name to try: the number stands between the stem and the extension.
pub open spec fn numbered(stem: Seq<char>, extension: Option<Seq<char>>, n: nat) -> Seq<char> {
    let base = stem + " ("@ + decimal(n) + ")"@;
    match extension {
        Some(e) => base + "."@ + e,
        None => base,
    }
}

/// The contents of an optional text.
pub open spec fn text_view(s: Option<String>) -> Option<Seq<char>> {
    match s {
        Some(s) => Some(s@),
        None => None,
    }
}

/// The last dot of a name is the last: no dot stands after it, and there is one at it.
proof fn lemma_last_dot(name: Seq<char>)
    ensures
        -1 <= last_dot(name) < name.len(),
        last_dot(name) >= 0 ==> name[last_dot(name)] == '.',
        forall|i: int| last_dot(name) < i < name.len() ==> name[i] != '.',
    decreases name.len(),
{
    if name.len() > 0 && name.last() != '.' {
        lemma_last_dot(name.drop_last());
        assert forall|i: int| last_dot(name) < i < name.len() implies name[i] != '.' by {
            if i < name.len() - 1 {
                assert(name[i] == name.drop_last()[i]);
            }
        }
    }
}

/// Finds the last dot of a name: the number of characters up to it and with it, or zero.
fn find_last_dot(name: &str) -> (end: usize)
    ensures
        end == last_dot(name@) + 1,
{
    let mut end: usize = name.unicode_len();
    assert(name@.take(name@.len() as int) =~= name@);
    while end > 0
        invariant
            end <= name@.len(),
            last_dot(name@.take(end as int)) == last_dot(name@),
        decreases end,
    {
        assert(name@.take(end as int).drop_last() =~= name@.take(end - 1));
        if name.get_char(end - 1) == '.' {
            return end;
        }
        end = end - 1;
    }
    end
}

/// A search for a name that is still free.
pub struct NameSearch {
    stem: String,
    extension: Option<String>,
    n: u32,
}

impl NameSearch {
    /// The stem of the names that are tried.
    pub closed spec fn stem(&self) -> Seq<char> {
        self.stem@
    }

    /// The extension of the names that are tried.
    pub closed spec fn extension(&self) -> Option<Seq<char>> {
        text_view(self.extension)
    }

    /// The number of the name that is tried now: zero is the path as it stands.
    pub closed spec fn number(&self) -> u32 {
        self.n
    }

    /// Begins a search, with the path as it stands. A path that ends in no name is searched for under
    /// the name `file`.
    pub fn new(name: Option<&str>) -> (s: Self)
        ensures
            s.number() == 0,
            name matches Some(t) ==> s.stem() == stem(t@) && s.extension() == extension(t@),
            name is None ==> s.stem() == "file"@ && s.extension() is None,
    {
        match name {
            Some(t) => {
                proof {
                    lemma_last_dot(t@);
                    reveal_strlit("..");
                }
                let len: usize = t.unicode_len();
                let end: usize = find_last_dot(t);
                let is_parent: bool = len == 2 && t.get_char(0) == '.' && t.get_char(1) == '.';
                assert(is_parent <==> t@ =~= ".."@);
                if end <= 1 || is_parent {
                    NameSearch { stem: String::from_str(t), extension: None, n: 0 }
                } else {
                    let head: &str = t.substring_char(0, end - 1);
                    let tail: &str = t.substring_char(end, len);
                    assert(head@ =~= stem(t@));
                    assert(tail@ =~= t@.skip(last_dot(t@) + 1));
                    NameSearch {
                        stem: String::from_str(head),
                        extension: Some(String::from_str(tail)),
                        n: 0,
                    }
                }
            },
            None => NameSearch { stem: String::from_str("file"), extension: None, n: 0 },
        }
    }

    /// The name that is tried now; nothing where it is the path as it stands.
    pub fn name(&self) -> (name: Option<String>)
        ensures
            name is None <==> self.number() == 0,
            name matches Some(t) ==> t@ == numbered(
                self.stem(),
                self.extension(),
                self.number() as nat,
            ),
    {
        if self.n == 0 {
            return None;
        }
        let mut name: String = String::from_str(self.stem.as_str());
        name.append(" (");
        push_decimal(&mut name, self.n);
        name.append(")");
        if let Some(e) = &self.extension {
            name.append(".");
            name.append(e.as_str());
        }
        Some(name)
    }

    /// Takes whether the name that is tried now is taken. Returns what is to be done.
    pub fn answer(&mut self, taken: bool) -> (step: NameStep)
        ensures
            final(self).stem() == old(self).stem(),
            final(self).extension() == old(self).extension(),
            step == name_step(old(self).number(), taken),
            final(self).number() == old(self).number() + if step == NameStep::TryNext {
                1int
            } else {
                0
            },
    {
        if !taken {
            NameStep::Use
        } else if self.n == u32::MAX {
            NameStep::Exhausted
        } else {
            self.n = self.n + 1;
            NameStep::TryNext
        }
    }
}

/// What is to be done once it is known whether a name is taken.
#[derive(Clone, Copy, PartialEq, Eq, Structural)]
pub enum NameStep {
    /// The name is free: use it.
    Use,
    /// The name is taken: try the next.
    TryNext,
    /// The name is taken, and there is no further number.
    Exhausted,
}

/// What is to be done once it is known whether the name with number `n` is taken.
pub open spec fn name_step(n: u32, taken: bool) -> NameStep {
    if !taken {
        NameStep::Use
    } else if n == u32::MAX {
        NameStep::Exhausted
    } else {
        NameStep::TryNext
    }
}

/// The number of the name that a search comes to use when it stands at number `n` and is told, one
/// name after the other, whether they are taken. Nothing where it has not come to one.
pub open spec fn used_number(n: u32, taken: Seq<bool>) -> Option<u32>
    decreases taken.len(),
{
    if taken.len() == 0 {
        None
    } else {
        match name_step(n, taken[0]) {
            NameStep::Use => Some(n),
            NameStep::TryNext => used_number((n + 1) as u32, taken.skip(1)),
            NameStep::Exhausted => None,
        }
    }
}

/// A search that stands at number `n` uses the first name that is free.
proof fn lemma_first_free(n: u32, taken: Seq<bool>, m: u32)
    ensures
        used_number(n, taken) == Some(m) <==> n <= m && m - n < taken.len() && !taken[m - n] && forall|
            k: int,
        |
            0 <= k < m - n ==> #[trigger] taken[k],
    decreases taken.len(),
{
    if taken.len() > 0 && name_step(n, taken[0]) == NameStep::TryNext {
        let rest = taken.skip(1);
        lemma_first_free((n + 1) as u32, rest, m);
        if n < m && m - n < taken.len() {
            assert(rest[m - n - 1] == taken[m - n]);
            if forall|k: int| 0 <= k < m - n ==> #[trigger] taken[k] {
                assert forall|k: int| 0 <= k < m - n - 1 implies #[trigger] rest[k] by {
                    assert(taken[k + 1]);
                }
            }
            if forall|k: int| 0 <= k < m - n - 1 ==> #[trigger] rest[k] {
                assert forall|k: int| 0 <= k < m - n implies #[trigger] taken[k] by {
                    assert(k > 0 ==> rest[k - 1]);
                }
            }
        }
    } else if taken.len() > 0 && taken[0] && m > n {
        assert(n == u32::MAX);
    } else if taken.len() > 0 && !taken[0] && m > n {
        assert(!(forall|k: int| 0 <= k < m - n ==> #[trigger] taken[k]));
    }
}

/// The path itself is used where nothing is there, and otherwise the first numbered name that is
/// free: the name with number `m` is used exactly where it is free and all before it are taken, the
/// path as it stands among them.
pub proof fn law_first_free_name_is_used(taken: Seq<bool>, m: u32)
    ensures
        used_number(0, taken) == Some(m) <==> m < taken.len() && !taken[m as int] && forall|k: int|
            0 <= k < m ==> #[trigger] taken[k],
{
    lemma_first_free(0, taken, m);
}

/// A name is its stem and its extension with a dot between them, or its stem alone.
pub proof fn law_name_is_stem_and_extension(name: Seq<char>)
    ensures
        match extension(name) {
            Some(e) => name == stem(name) + "."@ + e && stem(name).len() > 0 && !e.contains('.'),
            None => name == stem(name),
        },
{
    lemma_last_dot(name);
    reveal_strlit(".");
    if has_extension(name) {
        assert(name =~= stem(name) + "."@ + name.skip(last_dot(name) + 1));
        let e = name.skip(last_dot(name) + 1);
        assert forall|i: int| 0 <= i < e.len() implies e[i] != '.' by {
            assert(e[i] == name[last_dot(name) + 1 + i]);
        }
    }
}

/// No two tries of a search have the same name.
pub proof fn law_tries_differ(stem: Seq<char>, extension: Option<Seq<char>>, m: nat, n: nat)
    requires
        m != n,
    ensures
        numbered(stem, extension, m) != numbered(stem, extension, n),
{
    reveal_strlit(" (");
    reveal_strlit(")");
    reveal_strlit(".");
    let tail = match extension {
        Some(e) => ")"@ + "."@ + e,
        None => ")"@,
    };
    let a = numbered(stem, extension, m);
    let b = numbered(stem, extension, n);
    assert(a =~= stem + " ("@ + decimal(m) + tail);
    assert(b =~= stem + " ("@ + decimal(n) + tail);
    let k = stem.len() + 2;
    if a == b {
        assert(decimal(m).len() == decimal(n).len());
        assert(decimal(m) =~= a.subrange(k as int, (k + decimal(m).len()) as int));
        assert(decimal(n) =~= b.subrange(k as int, (k + decimal(n).len()) as int));
        lemma_decimal_injective(m, n);
    }
}

/// No try of a search has the name that was taken in the first place.
pub proof fn law_tries_leave_the_taken_name(name: Seq<char>, n: nat)
    ensures
        numbered(stem(name), extension(name), n) != name,
{
    law_name_is_stem_and_extension(name);
    reveal_strlit(" (");
    reveal_strlit(")");
    reveal_strlit(".");
}

/// A name has an extension exactly where a dot stands in it behind its first character, and it is not
/// the name of the directory above.
pub proof fn law_extension_wants_an_inner_dot(name: Seq<char>)
    ensures
        extension(name) is Some <==> name != seq!['.', '.'] && exists|i: int|
            0 < i < name.len() && #[trigger] name[i] == '.',
{
    lemma_last_dot(name);
    reveal_strlit("..");
    assert(".."@ =~= seq!['.', '.']);
    if last_dot(name) > 0 {
        assert(name[last_dot(name)] == '.');
    }
}

/// A numbered name is the stem, a space, the number in brackets, and the extension behind a dot where
/// there is one.
pub proof fn law_numbered_names_hold_the_number(stem: Seq<char>, extension: Seq<char>, n: nat)
    ensures
        numbered(stem, None, n) == stem + seq![' ', '('] + decimal(n) + seq![')'],
        numbered(stem, Some(extension), n) == stem + seq![' ', '('] + decimal(n) + seq![')', '.']
            + extension,
{
    reveal_strlit(" (");
    reveal_strlit(")");
    reveal_strlit(".");
    assert(" ("@ =~= seq![' ', '(']);
    assert(")"@ =~= seq![')']);
    assert(")"@ + "."@ =~= seq![')', '.']);
    assert(numbered(stem, Some(extension), n) =~= stem + seq![' ', '('] + decimal(n) + seq![')', '.']
        + extension);
}

} // verus!
