use vstd::prelude::*;
use vstd::string::StringExecFns;

use crate::catalog::{keys_unique, lemma_map_of_domain, lemma_map_of_value, map_of, pair_views, Catalog};
use crate::text::{decimal, push_decimal};

verus! {

/// Diagnostic category: the first argument is not a string literal.
pub const NOT_LITERAL: u8 = 0;

/// Diagnostic category: a key seen earlier in this run with another text.
pub const RUN_CONFLICT: u8 = 1;

/// Diagnostic category: a key whose persisted text differs from the text found.
pub const PERSIST_CONFLICT: u8 = 2;

/// Diagnostic category: the call has no arguments.
pub const EMPTY_ARGS: u8 = 3;

/// What a call expression calls.
pub enum Callee {
    /// A plain identifier.
    Ident(String),
    /// Any other callee (a member access, `super`, `import`, ...).
    Other,
}

/// The shape of one argument of a call.
pub enum Arg {
    /// A string literal, with its text.
    Str(String),
    /// Any other expression.
    Other,
}

/// One physical line covered by a call, with 0-based positions.
pub struct LineSpan {
    pub line_index: u32,
    pub start_col: u32,
    pub end_col: u32,
}

/// One call expression of a parsed source file.
pub struct CallSite {
    pub callee: Callee,
    pub args: Vec<Arg>,
    pub file: String,
    pub lines: Vec<LineSpan>,
}

/// A recorded diagnostic: its category and its message.
pub struct IntlErrInfo {
    pub err_type: u8,
    pub err_msg: String,
}

impl IntlErrInfo {
    pub fn new(err_type: u8, err_msg: String) -> (r: IntlErrInfo)
        ensures
            r.err_type == err_type,
            r.err_msg@ == err_msg@,
    {
        IntlErrInfo { err_type, err_msg }
    }
}

/// A catalog entry found in this run.
pub struct IntlOkInfo {
    pub key: String,
    pub default: String,
}

/// The name of the translation marker function.
pub open spec fn marker_name() -> Seq<char> {
    "$t"@
}

/// Whether the call calls the marker function by its plain name.
pub open spec fn is_marker_call(c: CallSite) -> bool {
    match c.callee {
        Callee::Ident(n) => n@ == marker_name(),
        Callee::Other => false,
    }
}

/// The text of the first argument, or the category of the failure.
pub open spec fn classify(c: CallSite) -> Result<Seq<char>, u8> {
    if c.args@.len() == 0 {
        Err(EMPTY_ARGS)
    } else {
        match c.args@[0] {
            Arg::Str(s) => Ok(s@),
            Arg::Other => Err(NOT_LITERAL),
        }
    }
}

/// The reason that opens the message of a classification failure.
pub open spec fn failure_reason(kind: u8) -> Seq<char> {
    if kind == EMPTY_ARGS {
        "Error: Args is empty."@
    } else {
        "Error: Not a string literal."@
    }
}

/// The description of one covered line; numbers are 1-based.
pub open spec fn line_text(l: LineSpan) -> Seq<char> {
    "Line num: "@ + decimal(l.line_index as nat + 1) + ", start col num: "@ + decimal(
        l.start_col as nat + 1,
    ) + ", end col num: "@ + decimal(l.end_col as nat + 1) + " "@
}

/// The descriptions of the covered lines, separated by `;`.
pub open spec fn lines_text(ls: Seq<LineSpan>) -> Seq<char>
    decreases ls.len(),
{
    if ls.len() == 0 {
        Seq::empty()
    } else if ls.len() == 1 {
        line_text(ls[0])
    } else {
        lines_text(ls.drop_last()) + ";"@ + line_text(ls.last())
    }
}

/// Where a call stands: its file and the lines it covers.
pub open spec fn location(c: CallSite) -> Seq<char> {
    " File is "@ + c.file@ + "; "@ + lines_text(c.lines@)
}

/// The message of a key met twice in this run with two texts.
pub open spec fn run_conflict_message(key: Seq<char>, c: CallSite) -> Seq<char> {
    "Error: Intl key:"@ + key + " same key with different value"@ + location(c)
}

/// The message of a key whose persisted text differs from the text found.
pub open spec fn persist_conflict_message(key: Seq<char>, c: CallSite) -> Seq<char> {
    "Error: Intl key: "@ + key + " same key with different value from existed file'"@ + location(
        c,
    )
}

/// The run's state as values: new entries, rediscovered persisted pairs, diagnostics.
pub type ScanState = (
    Map<Seq<char>, Seq<char>>,
    Seq<(Seq<char>, Seq<char>)>,
    Seq<(u8, Seq<char>)>,
);

/// The state after one call, given the persisted catalog `p`.
pub open spec fn scan_step(a: ScanState, p: Map<Seq<char>, Seq<char>>, c: CallSite) -> ScanState {
    if !is_marker_call(c) {
        a
    } else {
        match classify(c) {
            Ok(t) => if a.0.contains_key(t) {
                if a.0[t] != t {
                    (a.0, a.1, a.2.push((RUN_CONFLICT, run_conflict_message(t, c))))
                } else {
                    a
                }
            } else if p.contains_key(t) {
                (
                    a.0,
                    a.1.push((t, p[t])),
                    if p[t] != t {
                        a.2.push((PERSIST_CONFLICT, persist_conflict_message(t, c)))
                    } else {
                        a.2
                    },
                )
            } else {
                (a.0.insert(t, t), a.1, a.2)
            },
            Err(k) => (a.0, a.1, a.2.push((k, failure_reason(k) + location(c)))),
        }
    }
}

/// The state after the calls `cs`, in order.
pub open spec fn scan(a: ScanState, p: Map<Seq<char>, Seq<char>>, cs: Seq<CallSite>) -> ScanState
    decreases cs.len(),
{
    if cs.len() == 0 {
        a
    } else {
        scan_step(scan(a, p, cs.drop_last()), p, cs.last())
    }
}

/// The state of a run that has seen nothing.
pub open spec fn empty_scan() -> ScanState {
    (Map::empty(), Seq::empty(), Seq::empty())
}

/// The (key, text) views of new entries.
pub open spec fn ok_views(s: Seq<IntlOkInfo>) -> Seq<(Seq<char>, Seq<char>)> {
    s.map_values(|o: IntlOkInfo| (o.key@, o.default@))
}

/// The (category, message) views of diagnostics.
pub open spec fn err_views(s: Seq<IntlErrInfo>) -> Seq<(u8, Seq<char>)> {
    s.map_values(|e: IntlErrInfo| (e.err_type, e.err_msg@))
}

/// The name that a callee calls, when it is a plain identifier.
pub fn get_caller_name(callee: &Callee) -> (r: Option<&String>)
    ensures
        match callee {
            Callee::Ident(n) => r is Some && r->0@ == n@,
            Callee::Other => r is None,
        },
{
    match callee {
        Callee::Ident(n) => Some(n),
        Callee::Other => None,
    }
}

/// Whether the call calls the marker function.
pub fn is_marker(call: &CallSite) -> (r: bool)
    ensures
        r == is_marker_call(*call),
{
    match get_caller_name(&call.callee) {
        Some(n) => {
            let marker = String::from_str("$t");
            *n == marker
        },
        None => false,
    }
}

/// Classifies a call by its first argument.
pub fn get_intel_info(node: &CallSite) -> (r: Result<String, IntlErrInfo>)
    ensures
        match classify(*node) {
            Ok(t) => r is Ok && r->Ok_0@ == t,
            Err(k) => r is Err && r->Err_0.err_type == k && r->Err_0.err_msg@ == failure_reason(k),
        },
{
    if node.args.len() >= 1 {
        match &node.args[0] {
            Arg::Str(s) => Ok(s.clone()),
            Arg::Other => Err(IntlErrInfo::new(NOT_LITERAL, String::from_str("Error: Not a string literal."))),
        }
    } else {
        Err(IntlErrInfo::new(EMPTY_ARGS, String::from_str("Error: Args is empty.")))
    }
}

/// Appends the description of one covered line.
fn push_line_text(s: &mut String, l: &LineSpan)
    ensures
        final(s)@ == old(s)@ + line_text(*l),
{
    s.append("Line num: ");
    push_decimal(s, l.line_index as u64 + 1);
    s.append(", start col num: ");
    push_decimal(s, l.start_col as u64 + 1);
    s.append(", end col num: ");
    push_decimal(s, l.end_col as u64 + 1);
    s.append(" ");
    assert(final(s)@ =~= old(s)@ + line_text(*l));
}

/// The text that tells where a call stands.
pub fn location_text(call: &CallSite) -> (r: String)
    ensures
        r@ == location(*call),
{
    let mut s = String::from_str(" File is ");
    s.append(call.file.as_str());
    s.append("; ");
    let ghost start = s@;
    let mut i: usize = 0;
    while i < call.lines.len()
        invariant
            i <= call.lines.len(),
            s@ == start + lines_text(call.lines@.take(i as int)),
        decreases call.lines.len() - i,
    {
        if i > 0 {
            s.append(";");
        }
        push_line_text(&mut s, &call.lines[i]);
        proof {
            let t = call.lines@.take(i as int + 1);
            assert(t.drop_last() =~= call.lines@.take(i as int));
            assert(t.last() == call.lines@[i as int]);
            if i == 0 {
                assert(lines_text(call.lines@.take(0)) =~= Seq::empty());
            }
        }
        assert(s@ =~= start + lines_text(call.lines@.take(i as int + 1)));
        i = i + 1;
    }
    assert(call.lines@.take(call.lines.len() as int) =~= call.lines@);
    assert(s@ =~= location(*call));
    s
}

/// The state of one extraction run.
pub struct IntlInfo {
    /// Entries first seen in this run and absent from the persisted catalog.
    pub info_map: Vec<IntlOkInfo>,
    /// Keys seen in this run that the persisted catalog holds, with the persisted text.
    pub repeat_key_list: Vec<(String, String)>,
    /// Diagnostics in the order they were found.
    pub err_map: Vec<IntlErrInfo>,
}

impl View for IntlInfo {
    type V = ScanState;

    open spec fn view(&self) -> ScanState {
        (map_of(ok_views(self.info_map@)), pair_views(self.repeat_key_list@), err_views(self.err_map@))
    }
}

impl IntlInfo {
    /// The state is consistent with the persisted catalog `p`.
    pub open spec fn wf_for(&self, p: Map<Seq<char>, Seq<char>>) -> bool {
        &&& keys_unique(ok_views(self.info_map@))
        &&& forall|i: int| #![trigger self.info_map@[i]] 0 <= i < self.info_map@.len()
            ==> self.info_map@[i].key@ == self.info_map@[i].default@
                && !p.contains_key(self.info_map@[i].key@)
        &&& forall|i: int| #![trigger self.repeat_key_list@[i]] 0 <= i < self.repeat_key_list@.len()
            ==> p.contains_key(self.repeat_key_list@[i].0@)
                && p[self.repeat_key_list@[i].0@] == self.repeat_key_list@[i].1@
        &&& forall|i: int| #![trigger self.err_map@[i]] 0 <= i < self.err_map@.len()
            ==> self.err_map@[i].err_type <= EMPTY_ARGS
    }

    pub fn new() -> (r: IntlInfo)
        ensures
            r@ == empty_scan(),
            forall|p: Map<Seq<char>, Seq<char>>| r.wf_for(p),
    {
        let r = IntlInfo { info_map: Vec::new(), repeat_key_list: Vec::new(), err_map: Vec::new() };
        assert(ok_views(r.info_map@) =~= Seq::empty());
        assert(pair_views(r.repeat_key_list@) =~= Seq::empty());
        assert(err_views(r.err_map@) =~= Seq::empty());
        r
    }

    /// The position of a new entry with key `key`, if there is one.
    fn find_new(&self, key: &String) -> (r: Option<usize>)
        requires
            keys_unique(ok_views(self.info_map@)),
        ensures
            match r {
                Some(i) => i < self.info_map.len() && self.info_map@[i as int].key@ == key@
                    && self@.0.contains_key(key@) && self@.0[key@] == self.info_map@[i as int].default@,
                None => !self@.0.contains_key(key@),
            },
    {
        let mut i: usize = 0;
        while i < self.info_map.len()
            invariant
                i <= self.info_map.len(),
                keys_unique(ok_views(self.info_map@)),
                forall|j: int| 0 <= j < i ==> #[trigger] self.info_map@[j].key@ != key@,
            decreases self.info_map.len() - i,
        {
            if self.info_map[i].key == *key {
                proof {
                    lemma_map_of_value(ok_views(self.info_map@), i as int);
                }
                return Some(i);
            }
            i = i + 1;
        }
        proof {
            let s = ok_views(self.info_map@);
            lemma_map_of_domain(s, key@);
            if self@.0.contains_key(key@) {
                let j = choose|j: int| 0 <= j < s.len() && #[trigger] s[j].0 == key@;
                assert(self.info_map@[j].key@ == key@);
            }
        }
        None
    }

    fn push_error(&mut self, err_type: u8, err_msg: String)
        requires
            err_type <= EMPTY_ARGS,
            forall|i: int| #![trigger old(self).err_map@[i]] 0 <= i < old(self).err_map@.len()
                ==> old(self).err_map@[i].err_type <= EMPTY_ARGS,
        ensures
            forall|i: int| #![trigger final(self).err_map@[i]] 0 <= i < final(self).err_map@.len()
                ==> final(self).err_map@[i].err_type <= EMPTY_ARGS,
            final(self).info_map@ == old(self).info_map@,
            final(self).repeat_key_list@ == old(self).repeat_key_list@,
            final(self)@ == (old(self)@.0, old(self)@.1, old(self)@.2.push((err_type, err_msg@))),
    {
        self.err_map.push(IntlErrInfo::new(err_type, err_msg));
        assert(err_views(self.err_map@) =~= err_views(old(self).err_map@).push((err_type, err_msg@)));
        assert forall|i: int| 0 <= i < old(self).err_map@.len() implies self.err_map@[i]
            == old(self).err_map@[i] by {}
    }

    /// Folds one call into the run's state.
    pub fn record_call(&mut self, persisted: &Catalog, call: &CallSite)
        requires
            persisted.wf(),
            old(self).wf_for(persisted@),
        ensures
            final(self).wf_for(persisted@),
            final(self)@ == scan_step(old(self)@, persisted@, *call),
    {
        if !is_marker(call) {
            return;
        }
        match get_intel_info(call) {
            Ok(text) => {
                match self.find_new(&text) {
                    Some(i) => {
                        if !(self.info_map[i].default == text) {
                            let mut msg = String::from_str("Error: Intl key:");
                            msg.append(text.as_str());
                            msg.append(" same key with different value");
                            let loc = location_text(call);
                            msg.append(loc.as_str());
                            self.push_error(RUN_CONFLICT, msg);
                        }
                    },
                    None => {
                        match persisted.find(&text) {
                            Some(j) => {
                                let v = persisted.entries[j].1.clone();
                                let differs = !(v == text);
                                let ghost s0 = self.repeat_key_list@;
                                self.repeat_key_list.push((text.clone(), v));
                                assert(pair_views(self.repeat_key_list@) =~= pair_views(s0).push(
                                    (text@, persisted@[text@]),
                                ));
                                if differs {
                                    let mut msg = String::from_str("Error: Intl key: ");
                                    msg.append(text.as_str());
                                    msg.append(" same key with different value from existed file'");
                                    let loc = location_text(call);
                                    msg.append(loc.as_str());
                                    self.push_error(PERSIST_CONFLICT, msg);
                                }
                            },
                            None => {
                                let ghost s0 = ok_views(self.info_map@);
                                self.info_map.push(IntlOkInfo { key: text.clone(), default: text });
                                proof {
                                    let s = ok_views(self.info_map@);
                                    assert(s.drop_last() =~= s0);
                                    lemma_map_of_domain(s0, text@);
                                    assert forall|a: int, b: int| 0 <= a < b < s.len() implies #[trigger] s[a].0
                                        != #[trigger] s[b].0 by {
                                        assert(s0[a] == s[a]);
                                        if b < s.len() - 1 {
                                            assert(s0[b] == s[b]);
                                        }
                                    }
                                }
                            },
                        }
                    },
                }
            },
            Err(e) => {
                let mut msg = e.err_msg;
                let loc = location_text(call);
                msg.append(loc.as_str());
                self.push_error(e.err_type, msg);
            },
        }
    }

    /// Folds the calls of one file, in source order, into the run's state.
    pub fn extract_calls(&mut self, persisted: &Catalog, calls: &Vec<CallSite>)
        requires
            persisted.wf(),
            old(self).wf_for(persisted@),
        ensures
            final(self).wf_for(persisted@),
            final(self)@ == scan(old(self)@, persisted@, calls@),
    {
        let mut i: usize = 0;
        while i < calls.len()
            invariant
                i <= calls.len(),
                persisted.wf(),
                self.wf_for(persisted@),
                self@ == scan(old(self)@, persisted@, calls@.take(i as int)),
            decreases calls.len() - i,
        {
            self.record_call(persisted, &calls[i]);
            proof {
                let t = calls@.take(i as int + 1);
                assert(t.drop_last() =~= calls@.take(i as int));
            }
            i = i + 1;
        }
        assert(calls@.take(calls.len() as int) =~= calls@);
    }
}

} // verus!
