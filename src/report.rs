use vstd::prelude::*;
use vstd::string::StringExecFns;

use crate::extract::{err_views, IntlInfo, EMPTY_ARGS, NOT_LITERAL, PERSIST_CONFLICT, RUN_CONFLICT};
use crate::text::{decimal, push_decimal};

verus! {

/// The heading of the section of a diagnostic category.
pub open spec fn section_title(kind: u8) -> Seq<char> {
    if kind == NOT_LITERAL {
        "\n ============== Not a string literal =============\n"@
    } else if kind == RUN_CONFLICT {
        "\n ============== Same key with different value =============\n"@
    } else if kind == PERSIST_CONFLICT {
        "\n ============== Same key with different value from existed file =============\n"@
    } else {
        "\n ============== Args is empty  =============\n"@
    }
}

/// The lines of the messages of category `kind`, in the order found.
pub open spec fn messages_of(kind: u8, errs: Seq<(u8, Seq<char>)>) -> Seq<char>
    decreases errs.len(),
{
    if errs.len() == 0 {
        Seq::empty()
    } else {
        messages_of(kind, errs.drop_last()) + if errs.last().0 == kind {
            "\n "@ + errs.last().1 + ";"@
        } else {
            Seq::empty()
        }
    }
}

/// Whether some diagnostic has category `kind`.
pub open spec fn has_kind(kind: u8, errs: Seq<(u8, Seq<char>)>) -> bool {
    exists|i: int| 0 <= i < errs.len() && (#[trigger] errs[i]).0 == kind
}

/// The section of a category: empty when it has no diagnostic.
pub open spec fn section(kind: u8, errs: Seq<(u8, Seq<char>)>) -> Seq<char> {
    if has_kind(kind, errs) {
        section_title(kind) + messages_of(kind, errs)
    } else {
        Seq::empty()
    }
}

/// The end-of-run summary: the number of new entries, then one section per
/// category that has diagnostics, in category order.
pub open spec fn summary_text(added: nat, errs: Seq<(u8, Seq<char>)>) -> Seq<char> {
    "\n ************** Complete the extraction of "@ + decimal(added)
        + " pieces of text. **************\n"@ + section(NOT_LITERAL, errs) + section(
        RUN_CONFLICT,
        errs,
    ) + section(PERSIST_CONFLICT, errs) + section(EMPTY_ARGS, errs)
}

fn title_str(kind: u8) -> (r: &'static str)
    ensures
        r@ == section_title(kind),
{
    if kind == NOT_LITERAL {
        "\n ============== Not a string literal =============\n"
    } else if kind == RUN_CONFLICT {
        "\n ============== Same key with different value =============\n"
    } else if kind == PERSIST_CONFLICT {
        "\n ============== Same key with different value from existed file =============\n"
    } else {
        "\n ============== Args is empty  =============\n"
    }
}

impl IntlInfo {
    /// Appends the section of category `kind`.
    fn push_section(&self, s: &mut String, kind: u8)
        ensures
            final(s)@ == old(s)@ + section(kind, self@.2),
    {
        let mut msgs = String::new();
        let mut any = false;
        let mut i: usize = 0;
        while i < self.err_map.len()
            invariant
                i <= self.err_map.len(),
                msgs@ == messages_of(kind, err_views(self.err_map@.take(i as int))),
                any == has_kind(kind, err_views(self.err_map@.take(i as int))),
            decreases self.err_map.len() - i,
        {
            let ghost before = err_views(self.err_map@.take(i as int));
            let e = &self.err_map[i];
            if e.err_type == kind {
                msgs.append("\n ");
                msgs.append(e.err_msg.as_str());
                msgs.append(";");
                any = true;
            }
            proof {
                let t = err_views(self.err_map@.take(i as int + 1));
                assert(t.drop_last() =~= before);
                assert(t.last() == (e.err_type, e.err_msg@));
                if e.err_type == kind {
                    assert(t[t.len() - 1].0 == kind);
                }
                if has_kind(kind, t) && e.err_type != kind {
                    let j = choose|j: int| 0 <= j < t.len() && (#[trigger] t[j]).0 == kind;
                    assert(before[j] == t[j]);
                }
                if has_kind(kind, before) {
                    let j = choose|j: int| 0 <= j < before.len() && (#[trigger] before[j]).0 == kind;
                    assert(before[j] == t[j]);
                }
            }
            assert(msgs@ =~= messages_of(kind, err_views(self.err_map@.take(i as int + 1))));
            i = i + 1;
        }
        assert(self.err_map@.take(self.err_map.len() as int) =~= self.err_map@);
        if any {
            s.append(title_str(kind));
            s.append(msgs.as_str());
        }
        assert(final(s)@ =~= old(s)@ + section(kind, self@.2));
    }

    /// The end-of-run summary of this run.
    pub fn summary(&self) -> (r: String)
        ensures
            r@ == summary_text(self.info_map.len() as nat, self@.2),
    {
        let mut s = String::from_str("\n ************** Complete the extraction of ");
        push_decimal(&mut s, self.info_map.len() as u64);
        s.append(" pieces of text. **************\n");
        self.push_section(&mut s, NOT_LITERAL);
        self.push_section(&mut s, RUN_CONFLICT);
        self.push_section(&mut s, PERSIST_CONFLICT);
        self.push_section(&mut s, EMPTY_ARGS);
        assert(s@ =~= summary_text(self.info_map.len() as nat, self@.2));
        s
    }
}

/// Whether the walker visits a file: it matches an include pattern and no
/// exclude pattern, so an excluded file is never visited.
pub fn is_eligible(included: bool, excluded: bool) -> (r: bool)
    ensures
        r == (included && !excluded),
        excluded ==> !r,
{
    included && !excluded
}

} // verus!
