//! The remote secret: named fields, each holding a ciphertext, kept as a
//! JSON object of strings.

use crate::error::{Cause, CliError};
use std::collections::HashMap;
use vstd::prelude::*;

verus! {

/// `serde_json::Error`: why a text was not accepted as JSON of the shape asked for.
#[verifier::external_type_specification]
#[verifier::external_body]
pub struct ExJsonError(serde_json::Error);

/// The fields that `serde_json::from_str` reads from `text` as an object of
/// strings; `None` where it rejects `text`.
pub uninterp spec fn json_fields(text: Seq<char>) -> Option<Map<Seq<char>, Seq<char>>>;

/// The map that a list of name and value pairs stands for. Of two pairs with
/// one name the later one counts.
pub open spec fn fields_of(pairs: Seq<(String, String)>) -> Map<Seq<char>, Seq<char>>
    decreases pairs.len(),
{
    if pairs.len() == 0 {
        Map::empty()
    } else {
        fields_of(pairs.drop_last()).insert(pairs.last().0@, pairs.last().1@)
    }
}

/// Whether no name occurs twice in `pairs`.
pub open spec fn distinct_names(pairs: Seq<(String, String)>) -> bool {
    forall|i: int, j: int|
        0 <= i < j < pairs.len() ==> (#[trigger] pairs[i]).0@ != (#[trigger] pairs[j]).0@
}

/// Whether `names` lists the names of `fields`: each of them, once.
pub open spec fn lists_names(names: Seq<String>, fields: Map<Seq<char>, Seq<char>>) -> bool {
    &&& forall|i: int, j: int|
        0 <= i < j < names.len() ==> (#[trigger] names[i])@ != (#[trigger] names[j])@
    &&& forall|name: Seq<char>|
        fields.contains_key(name) <==> exists|i: int|
            0 <= i < names.len() && (#[trigger] names[i])@ == name
}

/// Calls `serde_json::from_str` for a `HashMap<String, String>` and hands
/// its entries out as pairs. Not proved: that acceptance and the fields read
/// are a function of the text.
#[verifier::external_body]
fn decode(text: &str) -> (res: Result<Vec<(String, String)>, serde_json::Error>)
    ensures
        match res {
            Ok(pairs) => json_fields(text@) == Some(fields_of(pairs@)),
            Err(_) => json_fields(text@) is None,
        },
{
    match serde_json::from_str::<HashMap<String, String>>(text) {
        Ok(fields) => Ok(fields.into_iter().collect()),
        Err(e) => Err(e),
    }
}

/// Calls `serde_json::to_string` on the pairs, gathered into a
/// `HashMap<String, String>`. Not proved: that it succeeds (it fails only on
/// keys that are no strings, or where the value's own serializer fails,
/// neither of which a map of strings has), and that `serde_json::from_str`
/// reads the same fields back from the text. The order of the fields in the
/// text is left open.
#[verifier::external_body]
fn encode(pairs: &Vec<(String, String)>) -> (res: Result<String, serde_json::Error>)
    ensures
        res is Ok,
        res matches Ok(text) ==> json_fields(text@) == Some(fields_of(pairs@)),
{
    serde_json::to_string(&pairs.iter().cloned().collect::<HashMap<String, String>>())
}

/// The message of a `serde_json::Error`, as its `Display` writes it. Nothing
/// is claimed of the text.
#[verifier::external_body]
fn rejection_text(e: &serde_json::Error) -> String {
    e.to_string()
}

/// A name is among the fields exactly if some pair carries it.
pub proof fn lemma_fields_names(pairs: Seq<(String, String)>, name: Seq<char>)
    ensures
        fields_of(pairs).contains_key(name) <==> exists|i: int|
            0 <= i < pairs.len() && (#[trigger] pairs[i]).0@ == name,
    decreases pairs.len(),
{
    if pairs.len() > 0 {
        let head = pairs.drop_last();
        lemma_fields_names(head, name);
        if fields_of(pairs).contains_key(name) {
            if pairs.last().0@ == name {
                assert(pairs[pairs.len() - 1].0@ == name);
            } else {
                let i = choose|i: int| 0 <= i < head.len() && (#[trigger] head[i]).0@ == name;
                assert(pairs[i].0@ == name);
            }
        }
        if exists|i: int| 0 <= i < pairs.len() && (#[trigger] pairs[i]).0@ == name {
            let i = choose|i: int| 0 <= i < pairs.len() && (#[trigger] pairs[i]).0@ == name;
            if i < pairs.len() - 1 {
                assert(head[i].0@ == name);
            }
        }
    }
}

/// Where no name occurs twice, none does among the pairs before the last.
pub proof fn lemma_distinct_head(pairs: Seq<(String, String)>)
    requires
        distinct_names(pairs),
        pairs.len() > 0,
    ensures
        distinct_names(pairs.drop_last()),
{
    let head = pairs.drop_last();
    assert forall|a: int, b: int| 0 <= a < b < head.len() implies (#[trigger] head[a]).0@ != (
    #[trigger] head[b]).0@ by {
        assert(pairs[a].0@ != pairs[b].0@);
    }
}

/// Where no name occurs twice, each pair's value is its name's value.
pub proof fn lemma_fields_value(pairs: Seq<(String, String)>, i: int)
    requires
        distinct_names(pairs),
        0 <= i < pairs.len(),
    ensures
        fields_of(pairs).contains_key(pairs[i].0@),
        fields_of(pairs)[pairs[i].0@] == pairs[i].1@,
    decreases pairs.len(),
{
    let head = pairs.drop_last();
    if i < pairs.len() - 1 {
        lemma_distinct_head(pairs);
        lemma_fields_value(head, i);
        assert(head[i] == pairs[i]);
        assert(pairs[i].0@ != pairs[pairs.len() - 1].0@);
    }
}

/// Where no name occurs twice, giving one pair a new value sets that
/// name's value and nothing else.
pub proof fn lemma_fields_update(pairs: Seq<(String, String)>, i: int, value: String)
    requires
        distinct_names(pairs),
        0 <= i < pairs.len(),
    ensures
        fields_of(pairs.update(i, (pairs[i].0, value))) == fields_of(pairs).insert(
            pairs[i].0@,
            value@,
        ),
        distinct_names(pairs.update(i, (pairs[i].0, value))),
    decreases pairs.len(),
{
    let after = pairs.update(i, (pairs[i].0, value));
    assert(distinct_names(after)) by {
        assert forall|a: int, b: int| 0 <= a < b < after.len() implies (#[trigger] after[a]).0@
            != (#[trigger] after[b]).0@ by {
            assert(pairs[a].0@ != pairs[b].0@);
        }
    }
    let head = pairs.drop_last();
    if i == pairs.len() - 1 {
        assert(after.drop_last() == head);
        assert(fields_of(after) == fields_of(pairs).insert(pairs[i].0@, value@));
    } else {
        lemma_distinct_head(pairs);
        lemma_fields_update(head, i, value);
        assert(head[i] == pairs[i]);
        assert(after.drop_last() == head.update(i, (pairs[i].0, value)));
        assert(after.last() == pairs.last());
        assert(pairs[i].0@ != pairs[pairs.len() - 1].0@);
        assert(fields_of(after) == fields_of(pairs).insert(pairs[i].0@, value@));
    }
}

/// The fields of one remote secret. Every value is a ciphertext.
#[derive(Debug)]
pub struct AWSSecret {
    data: Vec<(String, String)>,
}

impl View for AWSSecret {
    type V = Map<Seq<char>, Seq<char>>;

    closed spec fn view(&self) -> Map<Seq<char>, Seq<char>> {
        fields_of(self.data@)
    }
}

impl AWSSecret {
    #[verifier::type_invariant]
    spec fn well_formed(&self) -> bool {
        distinct_names(self.data@)
    }

    /// Where `name` stands in the list, if it is a field.
    fn position(&self, name: &String) -> (res: Option<usize>)
        ensures
            match res {
                Some(i) => i < self.data@.len() && self.data@[i as int].0@ == name@,
                None => !self@.contains_key(name@),
            },
    {
        let mut i: usize = 0;
        while i < self.data.len()
            invariant
                i <= self.data@.len(),
                forall|j: int| 0 <= j < i ==> (#[trigger] self.data@[j]).0@ != name@,
            decreases self.data@.len() - i,
        {
            if self.data[i].0 == *name {
                return Some(i);
            }
            i += 1;
        }
        proof {
            lemma_fields_names(self.data@, name@);
        }
        None
    }

    /// The secret with no field.
    pub fn empty() -> (res: Self)
        ensures
            res@ == Map::<Seq<char>, Seq<char>>::empty(),
    {
        AWSSecret { data: Vec::new() }
    }

    /// The secret that the pairs stand for. Of two pairs with one name the
    /// later one counts.
    pub fn from_pairs(pairs: Vec<(String, String)>) -> (res: Self)
        ensures
            res@ == fields_of(pairs@),
    {
        let mut secret = AWSSecret::empty();
        let mut i: usize = 0;
        while i < pairs.len()
            invariant
                i <= pairs.len(),
                secret@ == fields_of(pairs@.take(i as int)),
            decreases pairs.len() - i,
        {
            proof {
                assert(pairs@.take(i + 1).drop_last() == pairs@.take(i as int));
            }
            let _ = secret.put_field(pairs[i].0.clone(), pairs[i].1.clone());
            i += 1;
        }
        proof {
            assert(pairs@.take(pairs.len() as int) == pairs@);
        }
        secret
    }

    /// Reads a secret from the payload of the store: a JSON object whose
    /// values are strings.
    pub fn new(secret: String) -> (res: Result<Self, CliError>)
        ensures
            match json_fields(secret@) {
                Some(fields) => res matches Ok(s) && s@ == fields,
                None => res matches Err(e) && Cause::BadPayload.describes(e@),
            },
    {
        match decode(secret.as_str()) {
            Ok(pairs) => Ok(Self::from_pairs(pairs)),
            Err(e) => Err(CliError::AwsSecretsFormatError(rejection_text(&e))),
        }
    }

    /// The names of the fields, each once, in no particular order.
    pub fn list_fields(&self) -> (res: Vec<String>)
        ensures
            lists_names(res@, self@),
    {
        proof {
            use_type_invariant(self);
        }
        let mut names: Vec<String> = Vec::new();
        let mut i: usize = 0;
        while i < self.data.len()
            invariant
                i <= self.data@.len(),
                names@.len() == i,
                forall|j: int| 0 <= j < i ==> (#[trigger] names@[j])@ == self.data@[j].0@,
            decreases self.data@.len() - i,
        {
            names.push(self.data[i].0.clone());
            i += 1;
        }
        proof {
            assert forall|name: Seq<char>|
                self@.contains_key(name) <==> exists|i: int|
                    0 <= i < names@.len() && (#[trigger] names@[i])@ == name by {
                lemma_fields_names(self.data@, name);
                if self@.contains_key(name) {
                    let i = choose|i: int|
                        0 <= i < self.data@.len() && (#[trigger] self.data@[i]).0@ == name;
                    assert(names@[i]@ == name);
                }
                if exists|i: int| 0 <= i < names@.len() && (#[trigger] names@[i])@ == name {
                    let i = choose|i: int| 0 <= i < names@.len() && (#[trigger] names@[i])@ == name;
                    assert(self.data@[i].0@ == name);
                }
            }
        }
        names
    }

    /// The ciphertext held under `field_id`.
    pub fn load_field(&self, field_id: String) -> (res: Result<String, CliError>)
        ensures
            self@.contains_key(field_id@) ==> (res matches Ok(value) && value@ == self@[field_id@]),
            !self@.contains_key(field_id@) ==> (res matches Err(e) && Cause::NoSuchField(
                field_id@,
            ).describes(e@)),
    {
        proof {
            use_type_invariant(self);
        }
        match self.position(&field_id) {
            Some(i) => {
                proof {
                    lemma_fields_value(self.data@, i as int);
                }
                Ok(self.data[i].1.clone())
            },
            None => {
                let mut message = "Field '".to_string();
                message.append(field_id.as_str());
                message.append("' not found");
                Err(CliError::AwsSecretsFormatError(message))
            },
        }
    }

    /// Sets the field `field_id` to `value`, whether or not it was there.
    /// This cannot fail.
    pub fn put_field(&mut self, field_id: String, value: String) -> (res: Result<(), CliError>)
        ensures
            res is Ok,
            final(self)@ == old(self)@.insert(field_id@, value@),
    {
        proof {
            use_type_invariant(&*self);
        }
        let found = self.position(&field_id);
        let mut data: Vec<(String, String)> = Vec::new();
        std::mem::swap(&mut self.data, &mut data);
        match found {
            Some(i) => {
                proof {
                    lemma_fields_update(data@, i as int, value);
                }
                let name = data[i].0.clone();
                data.set(i, (name, value));
            },
            None => {
                proof {
                    lemma_fields_names(data@, field_id@);
                    assert(data@.push((field_id, value)).drop_last() == data@);
                }
                data.push((field_id, value));
            },
        }
        self.data = data;
        Ok(())
    }

    /// The payload for the store: a JSON object that reads back as these
    /// fields.
    pub fn to_string(&self) -> (res: Result<String, CliError>)
        ensures
            res matches Ok(text) && json_fields(text@) == Some(self@),
    {
        match encode(&self.data) {
            Ok(text) => Ok(text),
            Err(e) => Err(CliError::AwsSecretsFormatError(rejection_text(&e))),
        }
    }
}

} // verus!
