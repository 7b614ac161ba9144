//! Player identifiers, the keys under which avatars are kept.

use vstd::prelude::*;
use vstd::string::*;
use crate::decimal::{decimal, numeral_value, parse, render};
use crate::decimal::{lemma_decimal_is_numeral, lemma_numeral_is_decimal};

verus! {

/// Who a player is: the number that the chat platform gave them, or the
/// name that the server knows them by.
#[derive(Debug)]
pub enum Uid {
    Snowflake(u64),
    WmbId(String),
}

/// The first character of the stored key of a number.
pub const NUMBER_MARK: char = '#';

/// The first character of the stored key of a name.
pub const NAME_MARK: char = '@';

/// What a `Uid` is, mathematically.
pub enum UidView {
    Snowflake(u64),
    WmbId(Seq<char>),
}

impl UidView {
    /// The identifier as it is written in addresses and shown to people: a
    /// number in decimal, a name as it is. A name that looks like a number
    /// is written like the number here; see `key` for the form that tells
    /// them apart.
    pub open spec fn text(self) -> Seq<char> {
        match self {
            UidView::Snowflake(n) => decimal(n as nat),
            UidView::WmbId(name) => name,
        }
    }

    /// The identifier that a bare text is read as: a number where the text
    /// is the decimal form of one that fits 64 bits, a name otherwise.
    pub open spec fn of_text(text: Seq<char>) -> UidView {
        match numeral_value(text) {
            Some(n) => UidView::Snowflake(n),
            None => UidView::WmbId(text),
        }
    }

    /// The key under which the identifier is stored: a mark for the
    /// variant, `#` for a number and `@` for a name, and then the number in
    /// decimal or the name as it is.
    pub open spec fn key(self) -> Seq<char> {
        match self {
            UidView::Snowflake(n) => seq![NUMBER_MARK] + decimal(n as nat),
            UidView::WmbId(name) => seq![NAME_MARK] + name,
        }
    }

    /// The identifier that a stored key is read as. A key that begins with
    /// the mark of a name is that name. A key that begins with the mark of
    /// a number, followed by the decimal form of one that fits 64 bits, is
    /// that number. Any other key carries no mark and is read as a bare
    /// text.
    pub open spec fn of_key(key: Seq<char>) -> UidView {
        if key.len() > 0 && key[0] == NAME_MARK {
            UidView::WmbId(key.subrange(1, key.len() as int))
        } else if key.len() > 0 && key[0] == NUMBER_MARK {
            match numeral_value(key.subrange(1, key.len() as int)) {
                Some(n) => UidView::Snowflake(n),
                None => UidView::of_text(key),
            }
        } else {
            UidView::of_text(key)
        }
    }
}

impl View for Uid {
    type V = UidView;

    open spec fn view(&self) -> UidView {
        match self {
            Uid::Snowflake(n) => UidView::Snowflake(*n),
            Uid::WmbId(name) => UidView::WmbId(name@),
        }
    }
}

impl Clone for Uid {
    fn clone(&self) -> (res: Uid)
        ensures
            res@ == self@,
    {
        match self {
            Uid::Snowflake(n) => Uid::Snowflake(*n),
            Uid::WmbId(name) => Uid::WmbId(name.clone()),
        }
    }
}

impl PartialEq for Uid {
    fn eq(&self, other: &Uid) -> (res: bool) {
        match (self, other) {
            (Uid::Snowflake(a), Uid::Snowflake(b)) => *a == *b,
            (Uid::WmbId(a), Uid::WmbId(b)) => *a == *b,
            _ => false,
        }
    }
}

impl vstd::std_specs::cmp::PartialEqSpecImpl for Uid {
    open spec fn obeys_eq_spec() -> bool {
        true
    }

    open spec fn eq_spec(&self, other: &Uid) -> bool {
        self@ == other@
    }
}

impl Eq for Uid {}

impl Uid {
    /// Writes the identifier out.
    pub fn to_text(&self) -> (res: String)
        ensures
            res@ == self@.text(),
    {
        match self {
            Uid::Snowflake(n) => render(*n),
            Uid::WmbId(name) => name.clone(),
        }
    }

    /// Reads a bare text as an identifier.
    pub fn from_text(text: &str) -> (res: Uid)
        ensures
            res@ == UidView::of_text(text@),
    {
        match parse(text) {
            Some(n) => Uid::Snowflake(n),
            None => Uid::WmbId(String::from_str(text)),
        }
    }

    /// Writes the key under which the identifier is stored.
    pub fn to_key(&self) -> (res: String)
        ensures
            res@ == self@.key(),
    {
        proof {
            reveal_strlit("#");
            reveal_strlit("@");
        }
        match self {
            Uid::Snowflake(n) => {
                let number = render(*n);
                let key = String::from_str("#").concat(number.as_str());
                assert(key@ =~= self@.key());
                key
            },
            Uid::WmbId(name) => {
                let key = String::from_str("@").concat(name.as_str());
                assert(key@ =~= self@.key());
                key
            },
        }
    }

    /// Reads a stored key back as an identifier.
    pub fn from_key(key: &str) -> (res: Uid)
        ensures
            res@ == UidView::of_key(key@),
    {
        let len = key.unicode_len();
        if len > 0 {
            let mark = key.get_char(0);
            if mark == NAME_MARK {
                return Uid::WmbId(String::from_str(key.substring_char(1, len)));
            }
            if mark == NUMBER_MARK {
                match parse(key.substring_char(1, len)) {
                    Some(n) => {
                        return Uid::Snowflake(n);
                    },
                    None => {},
                }
            }
        }
        Uid::from_text(key)
    }
}

/// Reading the stored key of an identifier gives the identifier back,
/// whatever it is: the same variant with the same value.
pub proof fn lemma_key_reads_back(uid: UidView)
    ensures
        UidView::of_key(uid.key()) == uid,
{
    let key = uid.key();
    match uid {
        UidView::Snowflake(n) => {
            lemma_decimal_is_numeral(n as nat);
            assert(key.subrange(1, key.len() as int) =~= decimal(n as nat));
        },
        UidView::WmbId(name) => {
            assert(key.subrange(1, key.len() as int) =~= name);
        },
    }
}

/// Two identifiers with the same stored key are the same identifier.
pub proof fn lemma_key_tells_apart(a: UidView, b: UidView)
    requires
        a.key() == b.key(),
    ensures
        a == b,
{
    lemma_key_reads_back(a);
    lemma_key_reads_back(b);
}

/// A key without a mark is read as a bare text.
pub proof fn lemma_unmarked_key_is_bare_text(key: Seq<char>)
    requires
        key.len() == 0 || (key[0] != NAME_MARK && key[0] != NUMBER_MARK),
    ensures
        UidView::of_key(key) == UidView::of_text(key),
{
}

/// Writing out what a bare text was read as gives the text again.
pub proof fn lemma_text_survives_reading(text: Seq<char>)
    ensures
        UidView::of_text(text).text() == text,
{
    if numeral_value(text) is Some {
        lemma_numeral_is_decimal(text);
    }
}

} // verus!
