//! Serialization of dependency records: one line per record, fields joined
//! by semicolons, terminated by a newline.

use vstd::prelude::*;
use vstd::string::StringExecFns;
use crate::dom::NodeView;
use crate::extract::{extract_spec, lemma_extract_spec_shape, ParseError, Record, RecordV};
use crate::text::{append_u64, dec_digits, field_ok, is_digit, lemma_dec_digits_value};

verus! {

/// The serialized line of a record.
pub open spec fn record_line_spec(r: RecordV) -> Seq<char> {
    r.path_name + seq![';'] + r.architecture + seq![';'] + dec_digits(r.origin as nat) + seq![
        '\n',
    ]
}

/// Serializes one record as `path_name;architecture;origin_build_id` and a
/// newline.
pub fn record_line(r: &Record) -> (out: String)
    ensures
        out@ == record_line_spec(r@),
{
    proof {
        reveal_strlit(";");
        reveal_strlit("\n");
    }
    let mut out = String::new();
    out.append(r.path_name.as_str());
    out.append(";");
    out.append(r.architecture.as_str());
    out.append(";");
    append_u64(&mut out, r.origin);
    out.append("\n");
    proof {
        assert(";"@ =~= seq![';']);
        assert("\n"@ =~= seq!['\n']);
        assert(out@ =~= record_line_spec(r@));
    }
    out
}

/// The output line grammar: a field, a semicolon, a field, a semicolon, a
/// non-empty run of decimal digits, and a final newline.
pub open spec fn line_matches_grammar(l: Seq<char>) -> bool {
    exists|i: int, j: int|
        #![trigger l[i], l[j]]
        {
            &&& 0 < i
            &&& i + 1 < j
            &&& j + 1 < l.len() - 1
            &&& l[i] == ';'
            &&& l[j] == ';'
            &&& l[l.len() - 1] == '\n'
            &&& (forall|k: int| 0 <= k < i ==> l[k] != ';' && l[k] != '\n')
            &&& (forall|k: int| i < k < j ==> l[k] != ';' && l[k] != '\n')
            &&& (forall|k: int| j < k < l.len() - 1 ==> is_digit(l[k]))
        }
}

/// Line grammar: whenever a record's path name and architecture are
/// non-empty and free of semicolons and newlines, its serialized line is two
/// such fields, then a decimal number, then a newline.
pub proof fn lemma_line_grammar(r: RecordV)
    requires
        field_ok(r.path_name),
        field_ok(r.architecture),
    ensures
        line_matches_grammar(record_line_spec(r)),
{
    lemma_dec_digits_value(r.origin as nat);
    let l = record_line_spec(r);
    let d = dec_digits(r.origin as nat);
    let i = r.path_name.len() as int;
    let j = i + 1 + r.architecture.len() as int;
    assert(l.len() == r.path_name.len() + 1 + r.architecture.len() + 1 + d.len() + 1);
    assert(l[i] == ';');
    assert(l[j] == ';');
    assert(l[l.len() - 1] == '\n');
    assert forall|k: int| 0 <= k < i implies l[k] != ';' && l[k] != '\n' by {
        assert(l[k] == r.path_name[k]);
    }
    assert forall|k: int| i < k < j implies l[k] != ';' && l[k] != '\n' by {
        assert(l[k] == r.architecture[k - i - 1]);
    }
    assert forall|k: int| j < k < l.len() - 1 implies is_digit(l[k]) by {
        assert(l[k] == d[k - j - 1]);
    }
    assert({
        &&& 0 < i
        &&& i + 1 < j
        &&& j + 1 < l.len() - 1
        &&& l[i] == ';'
        &&& l[j] == ';'
        &&& l[l.len() - 1] == '\n'
        &&& (forall|k: int| 0 <= k < i ==> l[k] != ';' && l[k] != '\n')
        &&& (forall|k: int| i < k < j ==> l[k] != ';' && l[k] != '\n')
        &&& (forall|k: int| j < k < l.len() - 1 ==> is_digit(l[k]))
    });
}

/// Line grammar, with no side condition: every line serialized from a record
/// that a page's extraction yields matches the output grammar, because
/// extraction rejects pages whose fields could not stand in a line.
pub proof fn lemma_extracted_line_grammar(dom: Seq<NodeView>, v: Seq<RecordV>, k: int)
    requires
        extract_spec(dom) == Ok::<Seq<RecordV>, ParseError>(v),
        0 <= k < v.len(),
    ensures
        line_matches_grammar(record_line_spec(v[k])),
{
    lemma_extract_spec_shape(dom, v);
    lemma_line_grammar(v[k]);
}

} // verus!
