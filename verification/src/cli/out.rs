//! Command output: one compact JSON object per command on one line, its
//! keys in byte order, with library records embedded as their record
//! canonical bytes, and the exit code its status maps to.
use vstd::prelude::*;

use vstd::string::StringExecFns;
use vstd::utf8::valid_utf8;

use crate::canonical::{canon, json_string, lemma_record_form_total, push_all, record_value_bytes, sep, write_str, Json};
use crate::cli::code;
use crate::cli::exit::Exit;
use crate::cli::io::IoFail;
use crate::text_map::TextMap;

verus! {

/// A value of the stdout object: a JSON value, or bytes that already are
/// JSON (record canonical documents), embedded as they are.
#[derive(Debug, PartialEq, Eq)]
pub enum OutValue {
    Value(Json),
    Raw(Vec<u8>),
}

/// The bytes a value is written as: the record canonical form of a JSON
/// value, or embedded bytes unchanged.
pub open spec fn value_bytes(v: OutValue) -> Seq<u8> {
    match v {
        OutValue::Value(j) => match canon(j, true, Seq::empty()) {
            Ok(b) => b,
            Err(_) => Seq::empty(),
        },
        OutValue::Raw(b) => b@,
    }
}

/// The members from the `k`th on, each `"key":value`, comma separated.
pub open spec fn members_text(keys: Seq<Seq<char>>, values: Seq<OutValue>, k: int) -> Seq<u8>
    decreases keys.len() - k,
{
    if k < 0 || k >= keys.len() || k >= values.len() {
        Seq::empty()
    } else {
        sep(k) + json_string(keys[k]) + seq![0x3au8] + value_bytes(values[k]) + members_text(
            keys,
            values,
            k + 1,
        )
    }
}

/// Whether `v` is the JSON string `t`.
pub open spec fn is_text(v: Option<OutValue>, t: Seq<char>) -> bool {
    v matches Some(OutValue::Value(Json::Str(s))) && s@ == t
}

/// The stdout object of one command: each key once, in key order.
#[derive(Debug)]
pub struct Out {
    fields: TextMap<OutValue>,
}

/// A JSON string value.
fn text(s: &str) -> (r: Json)
    ensures
        r matches Json::Str(x) && x@ == s@,
{
    Json::Str(String::from_str(s))
}

impl Out {
    /// The keys, in increasing order.
    pub closed spec fn keys(self) -> Seq<Seq<char>> {
        self.fields.keys()
    }

    /// The values, in key order.
    pub closed spec fn values(self) -> Seq<OutValue> {
        self.fields.values()
    }

    /// The value at `k`, if any.
    pub closed spec fn lookup(self, k: Seq<char>) -> Option<OutValue> {
        self.fields.lookup(k)
    }

    /// An object with the command's name and its status.
    pub fn new(command: &str, status: &str) -> (r: Out)
        ensures
            is_text(r.lookup("command"@), command@),
            is_text(r.lookup("status"@), status@),
            forall|t: Seq<char>| t != "command"@ && t != "status"@ ==> #[trigger] r.lookup(t) is None,
    {
        let mut fields: TextMap<OutValue> = TextMap::new();
        proof {
            assert forall|t: Seq<char>| #[trigger] fields.lookup(t) is None by {
                assert(fields.keys().len() == 0);
            }
            reveal_strlit("command");
            reveal_strlit("status");
            assert("command"@ != "status"@) by {
                assert("command"@[0] != "status"@[0]);
            }
        }
        fields.put(String::from_str("command"), OutValue::Value(text(command)));
        fields.put(String::from_str("status"), OutValue::Value(text(status)));
        Out { fields }
    }

    /// This object with `key` set to `value`.
    pub fn set(self, key: &str, value: Json) -> (r: Out)
        ensures
            r.lookup(key@) == Some(OutValue::Value(value)),
            forall|t: Seq<char>| t != key@ ==> #[trigger] r.lookup(t) == self.lookup(t),
    {
        let mut fields = self.fields;
        fields.put(String::from_str(key), OutValue::Value(value));
        Out { fields }
    }

    /// This object with `key` set to the JSON string `value`.
    pub fn set_text(self, key: &str, value: &str) -> (r: Out)
        ensures
            is_text(r.lookup(key@), value@),
            forall|t: Seq<char>| t != key@ ==> #[trigger] r.lookup(t) == self.lookup(t),
    {
        self.set(key, text(value))
    }

    /// This object with `key` set to `bytes`, which already are JSON (a
    /// record canonical document), embedded without being written again.
    pub fn raw(self, key: &str, bytes: Vec<u8>) -> (r: Out)
        requires
            valid_utf8(bytes@),
        ensures
            r.lookup(key@) == Some(OutValue::Raw(bytes)),
            forall|t: Seq<char>| t != key@ ==> #[trigger] r.lookup(t) == self.lookup(t),
    {
        let mut fields = self.fields;
        fields.put(String::from_str(key), OutValue::Raw(bytes));
        Out { fields }
    }

    /// The status, where it is a JSON string; empty otherwise.
    pub fn status(&self) -> (r: &str)
        ensures
            match self.lookup("status"@) {
                Some(OutValue::Value(Json::Str(s))) => r@ == s@,
                _ => r@ == ""@,
            },
    {
        match self.fields.get("status") {
            Some(OutValue::Value(Json::Str(s))) => s.as_str(),
            _ => "",
        }
    }

    /// The line the command prints: `{`, the members in key order, `}` and
    /// a newline.
    pub fn bytes(&self) -> (r: Vec<u8>)
        ensures
            r@ == seq![0x7bu8] + members_text(self.keys(), self.values(), 0) + seq![0x7du8, 0x0au8],
    {
        let n = self.fields.len();
        let ghost keys = self.keys();
        let ghost values = self.values();
        let mut out: Vec<u8> = vec![0x7bu8];
        let ghost mut acc: Seq<u8> = Seq::empty();
        let mut i: usize = 0;
        while i < n
            invariant
                n == keys.len(),
                n == values.len(),
                keys == self.keys(),
                values == self.values(),
                i <= n,
                out@ == seq![0x7bu8] + acc,
                members_text(keys, values, 0) == acc + members_text(keys, values, i as int),
            decreases n - i,
        {
            let ghost before = out@;
            if i > 0 {
                out.push(0x2cu8);
            }
            write_str(self.fields.key_at(i), &mut out);
            out.push(0x3au8);
            match self.fields.value_at(i) {
                OutValue::Value(j) => {
                    proof {
                        lemma_record_form_total(*j, Seq::empty());
                    }
                    match record_value_bytes(j) {
                        Ok(b) => push_all(&mut out, b.as_slice()),
                        Err(_) => {},
                    }
                },
                OutValue::Raw(b) => push_all(&mut out, b.as_slice()),
            }
            proof {
                let head = sep(i as int) + json_string(keys[i as int]) + seq![0x3au8] + value_bytes(
                    values[i as int],
                );
                assert(out@ =~= before + head);
                assert(members_text(keys, values, i as int) == head + members_text(keys, values, i + 1));
                assert(acc + (head + members_text(keys, values, i + 1)) =~= acc + head + members_text(
                    keys,
                    values,
                    i + 1,
                ));
                acc = acc + head;
            }
            i = i + 1;
        }
        out.push(0x7du8);
        out.push(0x0au8);
        proof {
            assert(acc + Seq::<u8>::empty() =~= acc);
        }
        out
    }
}

/// A finished command: its exit code and its output.
#[derive(Debug)]
pub struct Done {
    pub code: u8,
    pub out: Out,
}

impl Done {
    /// A command finished with `code`.
    pub fn new(code: u8, out: Out) -> (r: Done)
        ensures
            r.code == code,
            r.out == out,
    {
        Done { code, out }
    }

    /// A command that succeeded: exit 0.
    pub fn ok(out: Out) -> (r: Done)
        ensures
            r.code == code::OK,
            r.out == out,
    {
        Done::new(code::OK, out)
    }

    /// A file that could not be read or written: status `io_error`, exit 3,
    /// with the path and the detail.
    pub fn io(command: &str, e: IoFail) -> (r: Done)
        ensures
            r.code == code::IO,
            is_text(r.out.lookup("command"@), command@),
            is_text(r.out.lookup("status"@), "io_error"@),
            is_text(r.out.lookup("path"@), e.path@),
            is_text(r.out.lookup("detail"@), e.detail@),
            forall|t: Seq<char>|
                t != "command"@ && t != "status"@ && t != "path"@ && t != "detail"@ ==> #[trigger] r.out.lookup(
                    t,
                ) is None,
    {
        proof {
            reveal_strlit("command");
            reveal_strlit("status");
            reveal_strlit("path");
            reveal_strlit("detail");
            assert("command"@[0] != "path"@[0]);
            assert("status"@[0] != "path"@[0]);
            assert("command"@[0] != "detail"@[0]);
            assert("status"@[0] != "detail"@[0]);
            assert("path"@[0] != "detail"@[0]);
        }
        let out = Out::new(command, "io_error").set_text("path", e.path.as_str()).set_text(
            "detail",
            e.detail.as_str(),
        );
        Done::new(code::IO, out)
    }

    /// A supplied document other than a definition or plan was refused:
    /// status `invalid_input`, exit 4, naming the input and the detail.
    pub fn invalid(command: &str, input: &str, detail: &str) -> (r: Done)
        ensures
            r.code == code::INVALID_INPUT,
            is_text(r.out.lookup("command"@), command@),
            is_text(r.out.lookup("status"@), "invalid_input"@),
            is_text(r.out.lookup("input"@), input@),
            is_text(r.out.lookup("detail"@), detail@),
            forall|t: Seq<char>|
                t != "command"@ && t != "status"@ && t != "input"@ && t != "detail"@ ==> #[trigger] r.out.lookup(
                    t,
                ) is None,
    {
        proof {
            reveal_strlit("command");
            reveal_strlit("status");
            reveal_strlit("input");
            reveal_strlit("detail");
            assert("command"@[0] != "input"@[0]);
            assert("status"@[0] != "input"@[0]);
            assert("command"@[0] != "detail"@[0]);
            assert("status"@[0] != "detail"@[0]);
            assert("input"@[0] != "detail"@[0]);
        }
        let out = Out::new(command, "invalid_input").set_text("input", input).set_text("detail", detail);
        Done::new(code::INVALID_INPUT, out)
    }

    /// How the process ends: the exit code, the object on stdout, nothing
    /// on stderr.
    pub fn finish(&self) -> (r: Exit)
        ensures
            r.code == self.code,
            r.stdout@ == seq![0x7bu8] + members_text(self.out.keys(), self.out.values(), 0) + seq![
                0x7du8,
                0x0au8,
            ],
            r.stderr@ == Seq::<char>::empty(),
    {
        Exit { code: self.code, stdout: self.out.bytes(), stderr: String::new() }
    }
}

} // verus!
