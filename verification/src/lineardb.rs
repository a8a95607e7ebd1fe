//! Operands of the linear instruction form and the identifier inventory
//! used to validate references to sections and labels.

use vstd::prelude::*;
use crate::ast::TokenInfo;
use crate::diags::{Diags, DiagView, Severity, SourceSpan};
use crate::fmt::{cat, digits, usize_to_dec};
use crate::token::{LexToken, is_reserved_identifier, is_reserved_spec};
use crate::extension::string_eq;

verus! {

/// An operand of a linear instruction: a literal token or the output of
/// an instruction.
pub struct LinOperand {
    /// Id of the instruction whose output this operand is, if any.
    pub ir_lid: Option<usize>,
    pub src_loc: SourceSpan,
    pub tok: LexToken,
    pub sval: String,
}

impl LinOperand {
    /// An operand for token `tinfo`; with `ir_lid` it is that instruction's
    /// output.
    pub fn new(ir_lid: Option<usize>, tinfo: &TokenInfo) -> (o: LinOperand)
        ensures
            o.ir_lid == ir_lid,
            o.src_loc == tinfo.loc,
            o.tok == tinfo.tok,
            o.sval@ == tinfo.val@,
    {
        LinOperand { ir_lid, src_loc: tinfo.loc, sval: tinfo.val.clone(), tok: tinfo.tok }
    }

    pub fn is_output_of(&self) -> (r: Option<usize>)
        ensures
            r == self.ir_lid,
    {
        self.ir_lid
    }
}

/// The names defined in one scope: labels with their locations, and how
/// often each section is written.
pub struct IdentDb {
    label_idents: Vec<(String, SourceSpan)>,
    section_count: Vec<(String, usize)>,
}

/// The keys of an association list.
pub open spec fn keys<V>(l: Seq<(Seq<char>, V)>) -> Seq<Seq<char>> {
    l.map_values(|p: (Seq<char>, V)| p.0)
}

/// The value stored for `k`, if any (keys are unique).
pub open spec fn lookup<V>(l: Seq<(Seq<char>, V)>, k: Seq<char>) -> Option<V> {
    if exists|i: int| 0 <= i < l.len() && l[i].0 == k {
        Some(l[choose|i: int| 0 <= i < l.len() && l[i].0 == k].1)
    } else {
        None
    }
}

pub open spec fn unique_keys<V>(l: Seq<(Seq<char>, V)>) -> bool {
    forall|i: int, j: int| 0 <= i < j < l.len() ==> l[i].0 != l[j].0
}

impl IdentDb {
    pub closed spec fn labels(&self) -> Seq<(Seq<char>, SourceSpan)> {
        self.label_idents@.map_values(|p: (String, SourceSpan)| (p.0@, p.1))
    }

    pub closed spec fn sections(&self) -> Seq<(Seq<char>, usize)> {
        self.section_count@.map_values(|p: (String, usize)| (p.0@, p.1))
    }

    /// Names are recorded at most once.
    pub open spec fn wf(&self) -> bool {
        unique_keys(self.labels()) && unique_keys(self.sections())
    }

    /// An empty inventory.
    pub fn new() -> (d: IdentDb)
        ensures
            d.labels() == Seq::<(Seq<char>, SourceSpan)>::empty(),
            d.sections() == Seq::<(Seq<char>, usize)>::empty(),
            d.wf(),
    {
        let d = IdentDb { label_idents: Vec::new(), section_count: Vec::new() };
        proof {
            assert(d.labels() =~= Seq::<(Seq<char>, SourceSpan)>::empty());
            assert(d.sections() =~= Seq::<(Seq<char>, usize)>::empty());
        }
        d
    }

    fn find_section(&self, name: &String) -> (r: Option<usize>)
        ensures
            r is None ==> forall|i: int| 0 <= i < self.sections().len() ==> self.sections()[i].0 != name@,
            r matches Some(i) ==> i < self.sections().len() && self.sections()[i as int].0 == name@,
    {
        let mut i: usize = 0;
        while i < self.section_count.len()
            invariant
                i <= self.section_count@.len(),
                forall|j: int| 0 <= j < i ==> self.sections()[j].0 != name@,
            decreases self.section_count@.len() - i,
        {
            proof { assert(self.sections()[i as int] == (self.section_count@[i as int].0@, self.section_count@[i as int].1)); }
            if string_eq(&self.section_count[i].0, name.as_str()) {
                return Some(i);
            }
            i = i + 1;
        }
        None
    }

    fn find_label(&self, name: &String) -> (r: Option<usize>)
        ensures
            r is None ==> forall|i: int| 0 <= i < self.labels().len() ==> self.labels()[i].0 != name@,
            r matches Some(i) ==> i < self.labels().len() && self.labels()[i as int].0 == name@,
    {
        let mut i: usize = 0;
        while i < self.label_idents.len()
            invariant
                i <= self.label_idents@.len(),
                forall|j: int| 0 <= j < i ==> self.labels()[j].0 != name@,
            decreases self.label_idents@.len() - i,
        {
            proof { assert(self.labels()[i as int] == (self.label_idents@[i as int].0@, self.label_idents@[i as int].1)); }
            if string_eq(&self.label_idents[i].0, name.as_str()) {
                return Some(i);
            }
            i = i + 1;
        }
        None
    }

    /// Counts one more occurrence of the section named by `name_operand`.
    pub fn inventory_section_name(&mut self, name_operand: &LinOperand)
        requires
            old(self).wf(),
            lookup(old(self).sections(), name_operand.sval@) matches Some(c) ==> c < usize::MAX,
        ensures
            final(self).wf(),
            final(self).labels() == old(self).labels(),
            lookup(final(self).sections(), name_operand.sval@) == Some(
                match lookup(old(self).sections(), name_operand.sval@) {
                    Some(c) => (c + 1) as usize,
                    None => 1usize,
                },
            ),
            forall|k: Seq<char>| k != name_operand.sval@ ==> lookup(final(self).sections(), k) == lookup(
                old(self).sections(),
                k,
            ),
    {
        let name = &name_operand.sval;
        let ghost s0 = self.sections();
        match self.find_section(name) {
            Some(i) => {
                let c = self.section_count[i].1;
                proof {
                    assert(s0[i as int].1 == c);
                    assert(lookup(s0, name@) == Some(c)) by {
                        let w = choose|w: int| 0 <= w < s0.len() && s0[w].0 == name@;
                        if w != i { assert(s0[w].0 != s0[i as int].0); }
                    }
                }
                let n = self.section_count[i].0.clone();
                self.section_count.set(i, (n, c + 1));
                proof {
                    let s1 = self.sections();
                    assert(s1 =~= s0.update(i as int, (name@, (c + 1) as usize)));
                    assert(lookup(s1, name@) == Some((c + 1) as usize)) by {
                        let w = choose|w: int| 0 <= w < s1.len() && s1[w].0 == name@;
                        if w != i { assert(s1[w].0 != s1[i as int].0); }
                    }
                    assert forall|k: Seq<char>| k != name@ implies lookup(s1, k) == lookup(s0, k) by {
                        if exists|w: int| 0 <= w < s0.len() && s0[w].0 == k {
                            let w0 = choose|w: int| 0 <= w < s0.len() && s0[w].0 == k;
                            let w1 = choose|w: int| 0 <= w < s1.len() && s1[w].0 == k;
                            assert(s1[w0].0 == k);
                            if w0 != w1 { assert(s0[w1].0 == k); }
                        }
                        if exists|w: int| 0 <= w < s1.len() && s1[w].0 == k {
                            let w1 = choose|w: int| 0 <= w < s1.len() && s1[w].0 == k;
                            assert(s0[w1].0 == k);
                        }
                    }
                }
            },
            None => {
                let n = name.clone();
                self.section_count.push((n, 1));
                proof {
                    let s1 = self.sections();
                    assert(s1 =~= s0.push((name@, 1usize)));
                    assert(lookup(s0, name@) is None);
                    assert(lookup(s1, name@) == Some(1usize)) by {
                        let w = choose|w: int| 0 <= w < s1.len() && s1[w].0 == name@;
                        assert(s1[s0.len() as int].0 == name@);
                    }
                    assert forall|k: Seq<char>| k != name@ implies lookup(s1, k) == lookup(s0, k) by {
                        if exists|w: int| 0 <= w < s0.len() && s0[w].0 == k {
                            let w0 = choose|w: int| 0 <= w < s0.len() && s0[w].0 == k;
                            assert(s1[w0].0 == k);
                        }
                        if exists|w: int| 0 <= w < s1.len() && s1[w].0 == k {
                            let w1 = choose|w: int| 0 <= w < s1.len() && s1[w].0 == k;
                            assert(w1 < s0.len());
                            assert(s0[w1].0 == k);
                        }
                    }
                }
            },
        }
    }

    /// Records the label named by `name_operand`.  A reserved name
    /// (LINEAR_13) or a name already recorded (LINEAR_2, pointing at the
    /// first definition) is reported and refused.
    pub fn inventory_label_name(&mut self, name_operand: &LinOperand, diags: &mut Diags) -> (ok: bool)
        requires
            old(self).wf(),
        ensures
            final(self).wf(),
            final(self).sections() == old(self).sections(),
            final(diags).files_view() == old(diags).files_view(),
            is_reserved_spec(name_operand.sval@) ==> !ok && final(self).labels() == old(self).labels()
                && final(diags).records() == old(diags).records().push(DiagView {
                    severity: Severity::Error,
                    code: "LINEAR_13"@,
                    msg: "'"@ + name_operand.sval@ + "' is a reserved identifier and cannot be used as a label name"@,
                    primary: Some(name_operand.src_loc),
                    secondaries: Seq::empty(),
                }),
            !is_reserved_spec(name_operand.sval@) ==> match lookup(old(self).labels(), name_operand.sval@) {
                Some(orig) => !ok && final(self).labels() == old(self).labels()
                    && final(diags).records() == old(diags).records().push(DiagView {
                        severity: Severity::Error,
                        code: "LINEAR_2"@,
                        msg: "Duplicate label name "@ + name_operand.sval@,
                        primary: Some(name_operand.src_loc),
                        secondaries: seq![(orig, Seq::<char>::empty())],
                    }),
                None => ok && final(self).labels() == old(self).labels().push((name_operand.sval@, name_operand.src_loc))
                    && final(diags).records() == old(diags).records(),
            },
    {
        let name = &name_operand.sval;
        proof {
            reveal_strlit("LINEAR_13");
            reveal_strlit("LINEAR_2");
            reveal_strlit("'");
            reveal_strlit("' is a reserved identifier and cannot be used as a label name");
            reveal_strlit("Duplicate label name ");
        }
        if is_reserved_identifier(name.as_str()) {
            let m = cat(cat(String::from_str("'"), name.as_str()), "' is a reserved identifier and cannot be used as a label name");
            diags.err1("LINEAR_13", m.as_str(), name_operand.src_loc);
            return false;
        }
        let ghost l0 = self.labels();
        match self.find_label(name) {
            Some(i) => {
                let orig = self.label_idents[i].1;
                proof {
                    assert(l0[i as int].1 == orig);
                    assert(lookup(l0, name@) == Some(orig)) by {
                        let w = choose|w: int| 0 <= w < l0.len() && l0[w].0 == name@;
                        if w != i { assert(l0[w].0 != l0[i as int].0); }
                    }
                }
                let msg = cat(String::from_str("Duplicate label name "), name.as_str());
                diags.err2("LINEAR_2", msg.as_str(), name_operand.src_loc, orig);
                false
            },
            None => {
                proof { assert(lookup(l0, name@) is None); }
                self.label_idents.push((name.clone(), name_operand.src_loc));
                proof {
                    assert(self.labels() =~= l0.push((name@, name_operand.src_loc)));
                }
                true
            },
        }
    }

    /// True if `lop` names a section written exactly once; a section written
    /// several times is reported (LINEAR_7) as an ambiguous reference.
    pub fn is_valid_section_ref(&self, lop: &LinOperand, diags: &mut Diags) -> (ok: bool)
        requires
            self.wf(),
        ensures
            final(diags).files_view() == old(diags).files_view(),
            ok <==> lookup(self.sections(), lop.sval@) == Some(1usize),
            match lookup(self.sections(), lop.sval@) {
                Some(c) => c != 1 ==> final(diags).records() == old(diags).records().push(DiagView {
                    severity: Severity::Error,
                    code: "LINEAR_7"@,
                    msg: "Reference to section '"@ + lop.sval@ + "' is ambiguous. This section occurs "@ + digits(
                        c as nat,
                        10,
                    ) + " times in the output"@,
                    primary: Some(lop.src_loc),
                    secondaries: Seq::empty(),
                }),
                None => true,
            },
            (lookup(self.sections(), lop.sval@) is None || lookup(self.sections(), lop.sval@) == Some(1usize))
                ==> final(diags).records() == old(diags).records(),
    {
        let ghost s0 = self.sections();
        match self.find_section(&lop.sval) {
            Some(i) => {
                let count = self.section_count[i].1;
                proof {
                    assert(s0[i as int].1 == count);
                    assert(lookup(s0, lop.sval@) == Some(count)) by {
                        let w = choose|w: int| 0 <= w < s0.len() && s0[w].0 == lop.sval@;
                        if w != i { assert(s0[w].0 != s0[i as int].0); }
                    }
                }
                if count == 1 {
                    return true;
                }
                proof {
                    reveal_strlit("LINEAR_7");
                    reveal_strlit("Reference to section '");
                    reveal_strlit("' is ambiguous. This section occurs ");
                    reveal_strlit(" times in the output");
                }
                let msg = cat(cat(cat(cat(String::from_str("Reference to section '"), lop.sval.as_str()),
                    "' is ambiguous. This section occurs "), usize_to_dec(count).as_str()), " times in the output");
                diags.err1("LINEAR_7", msg.as_str(), lop.src_loc);
                false
            },
            None => false,
        }
    }

    /// True if `lop` names a recorded label.
    pub fn is_valid_label_ref(&self, lop: &LinOperand) -> (ok: bool)
        ensures
            ok <==> lookup(self.labels(), lop.sval@) is Some,
    {
        self.find_label(&lop.sval).is_some()
    }
}

} // verus!
