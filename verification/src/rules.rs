//! Literal find-and-replace rules applied to text.

use vstd::prelude::*;
use crate::text::{chars_of, push_chars};

verus! {

/// Whether `pat` occurs in `s` starting at position `at`.
pub open spec fn matches_at(s: Seq<char>, pat: Seq<char>, at: int) -> bool {
    &&& 0 <= at
    &&& at + pat.len() <= s.len()
    &&& s.subrange(at, at + pat.len()) == pat
}

/// `s` with every occurrence of `from` replaced by `to`.
///
/// Occurrences are found left to right and do not overlap. An empty `from`
/// occurs before every character and once more at the end.
pub open spec fn replace_all(s: Seq<char>, from: Seq<char>, to: Seq<char>) -> Seq<char>
    decreases s.len(),
{
    if from.len() == 0 {
        if s.len() == 0 {
            to
        } else {
            to + seq![s[0]] + replace_all(s.drop_first(), from, to)
        }
    } else if matches_at(s, from, 0) {
        to + replace_all(s.subrange(from.len() as int, s.len() as int), from, to)
    } else if s.len() == 0 {
        s
    } else {
        seq![s[0]] + replace_all(s.drop_first(), from, to)
    }
}

/// `text` after each rule of `rules` has been applied in order.
pub open spec fn apply_all(rules: Seq<ReplacementRule>, text: Seq<char>) -> Seq<char>
    decreases rules.len(),
{
    if rules.len() == 0 {
        text
    } else {
        apply_all(rules.drop_first(), replace_all(text, rules[0].from@, rules[0].to@))
    }
}

/// One literal replacement: every occurrence of `from` becomes `to`.
#[derive(Debug, Clone)]
pub struct ReplacementRule {
    pub from: String,
    pub to: String,
}

/// What a set of rules did to one file's text.
#[derive(Debug)]
pub struct FileChange {
    pub path: String,
    pub before: String,
    pub after: String,
    pub changed: bool,
}

fn matches_here(s: &Vec<char>, pat: &Vec<char>, at: usize) -> (m: bool)
    requires
        at <= s@.len(),
    ensures
        m == matches_at(s@, pat@, at as int),
{
    if pat.len() > s.len() - at {
        return false;
    }
    let mut k: usize = 0;
    while k < pat.len()
        invariant
            at + pat@.len() <= s.len(),
            k <= pat@.len(),
            forall|j: int| 0 <= j < k ==> s@[at + j] == pat@[j],
        decreases pat@.len() - k,
    {
        if s[at + k] != pat[k] {
            assert(s@.subrange(at as int, at + pat@.len())[k as int] != pat@[k as int]);
            return false;
        }
        k += 1;
    }
    assert(s@.subrange(at as int, at + pat@.len()) =~= pat@);
    true
}

impl ReplacementRule {
    pub fn new(from: &str, to: &str) -> (rule: Self)
        ensures
            rule.from@ == from@,
            rule.to@ == to@,
    {
        Self { from: from.to_owned(), to: to.to_owned() }
    }

    /// Replaces every occurrence of `from` in `input` by `to`.
    pub fn apply(&self, input: &str) -> (out: String)
        ensures
            out@ == replace_all(input@, self.from@, self.to@),
    {
        let s = chars_of(input);
        let from = chars_of(self.from.as_str());
        let to = chars_of(self.to.as_str());
        let mut out = String::new();
        let mut i: usize = 0;
        proof {
            assert(s@.subrange(0, s@.len() as int) =~= s@);
            assert(out@ + replace_all(s@, from@, to@) =~= replace_all(s@, from@, to@));
        }
        if from.len() == 0 {
            while i < s.len()
                invariant
                    i <= s@.len(),
                    from@.len() == 0,
                    out@ + replace_all(s@.subrange(i as int, s@.len() as int), from@, to@)
                        == replace_all(s@, from@, to@),
                decreases s@.len() - i,
            {
                let ghost rest = s@.subrange(i as int, s@.len() as int);
                let ghost before = out@;
                push_chars(&mut out, &to, 0, to.len());
                out.push(s[i]);
                proof {
                    assert(to@.subrange(0, to@.len() as int) =~= to@);
                    assert(rest.drop_first() =~= s@.subrange(i + 1, s@.len() as int));
                    assert(rest[0] == s@[i as int]);
                    assert(out@ =~= before + (to@ + seq![rest[0]]));
                    assert((before + (to@ + seq![rest[0]])) + replace_all(
                        rest.drop_first(),
                        from@,
                        to@,
                    ) =~= before + (to@ + seq![rest[0]] + replace_all(
                        rest.drop_first(),
                        from@,
                        to@,
                    )));
                }
                i += 1;
            }
            let ghost before = out@;
            push_chars(&mut out, &to, 0, to.len());
            proof {
                assert(to@.subrange(0, to@.len() as int) =~= to@);
                assert(s@.subrange(i as int, s@.len() as int).len() == 0);
                assert(out@ =~= before + to@);
            }
            return out;
        }
        while i < s.len()
            invariant
                i <= s@.len(),
                from@.len() > 0,
                out@ + replace_all(s@.subrange(i as int, s@.len() as int), from@, to@)
                    == replace_all(s@, from@, to@),
            decreases s@.len() - i,
        {
            let ghost rest = s@.subrange(i as int, s@.len() as int);
            let ghost before = out@;
            let hit = matches_here(&s, &from, i);
            proof {
                assert(matches_at(s@, from@, i as int) ==> rest.subrange(0, from@.len() as int)
                    =~= s@.subrange(i as int, i + from@.len()));
                assert(matches_at(rest, from@, 0) ==> rest.subrange(0, from@.len() as int)
                    =~= s@.subrange(i as int, i + from@.len()));
                assert(hit == matches_at(rest, from@, 0));
            }
            if hit {
                push_chars(&mut out, &to, 0, to.len());
                proof {
                    assert(to@.subrange(0, to@.len() as int) =~= to@);
                    assert(rest.subrange(from@.len() as int, rest.len() as int) =~= s@.subrange(
                        i + from@.len(),
                        s@.len() as int,
                    ));
                    assert((before + to@) + replace_all(
                        rest.subrange(from@.len() as int, rest.len() as int),
                        from@,
                        to@,
                    ) =~= before + (to@ + replace_all(
                        rest.subrange(from@.len() as int, rest.len() as int),
                        from@,
                        to@,
                    )));
                }
                i += from.len();
            } else {
                out.push(s[i]);
                proof {
                    assert(rest.drop_first() =~= s@.subrange(i + 1, s@.len() as int));
                    assert(rest[0] == s@[i as int]);
                    assert(out@ =~= before + seq![rest[0]]);
                    assert((before + seq![rest[0]]) + replace_all(rest.drop_first(), from@, to@)
                        =~= before + (seq![rest[0]] + replace_all(rest.drop_first(), from@, to@)));
                }
                i += 1;
            }
        }
        proof {
            assert(s@.subrange(i as int, s@.len() as int).len() == 0);
            assert(out@ + Seq::<char>::empty() =~= out@);
        }
        out
    }
}

/// Applies `rules` in order to the text `before` of the file at `path` and
/// reports what came of it. The file is changed when the text is.
pub fn apply_rules(path: &str, before: &str, rules: &Vec<ReplacementRule>) -> (change: FileChange)
    ensures
        change.path@ == path@,
        change.before@ == before@,
        change.after@ == apply_all(rules@, before@),
        change.changed == (before@ != apply_all(rules@, before@)),
{
    let mut after = before.to_owned();
    let mut i: usize = 0;
    proof {
        assert(rules@.subrange(0, rules@.len() as int) =~= rules@);
    }
    while i < rules.len()
        invariant
            i <= rules@.len(),
            apply_all(rules@.subrange(i as int, rules@.len() as int), after@) == apply_all(
                rules@,
                before@,
            ),
        decreases rules@.len() - i,
    {
        let ghost rest = rules@.subrange(i as int, rules@.len() as int);
        proof {
            assert(rest.drop_first() =~= rules@.subrange(i + 1, rules@.len() as int));
            assert(rest[0] == rules@[i as int]);
        }
        after = rules[i].apply(after.as_str());
        i += 1;
    }
    let before = before.to_owned();
    let changed = !(before == after);
    FileChange { path: path.to_owned(), before, after, changed }
}

} // verus!
