use vstd::prelude::*;

verus! {

/// A namespaced key pointing to a game resource such as a material or entity
/// type. The namespace used for all built-in values is `minecraft`; when a key
/// is created in that namespace, the stored namespace is elided.
#[derive(Debug, PartialEq, Eq)]
pub struct Key(pub Option<String>, pub String);

/// The mathematical model of a [`Key`]: the stored namespace (`None` when the
/// default namespace is elided) and the value.
#[verifier::ext_equal]
pub struct KeyView {
    /// The stored namespace, `None` for the default namespace.
    pub namespace: Option<Seq<char>>,
    /// The key's value.
    pub value: Seq<char>,
}

/// The model of a key.
pub open spec fn spec_key(k: Key) -> KeyView {
    KeyView {
        namespace: match k.0 {
            Some(n) => Some(n@),
            None => None,
        },
        value: k.1@,
    }
}

/// The characters of the default namespace, `minecraft`.
pub open spec fn minecraft_namespace() -> Seq<char> {
    "minecraft"@
}

/// The effective namespace of a key model: the stored namespace, or the
/// default namespace when elided.
pub open spec fn spec_namespace(k: KeyView) -> Seq<char> {
    match k.namespace {
        Some(n) => n,
        None => minecraft_namespace(),
    }
}

/// The full serial representation of a key model: `namespace:value`.
pub open spec fn spec_key_string(k: KeyView) -> Seq<char> {
    spec_namespace(k) + seq![':'] + k.value
}

/// The compact representation: the bare value when the namespace is elided,
/// else `namespace:value`.
pub open spec fn spec_key_compact(k: KeyView) -> Seq<char> {
    match k.namespace {
        Some(n) => n + seq![':'] + k.value,
        None => k.value,
    }
}

impl Key {
    /// Creates a new key in the provided namespace. When the namespace is the
    /// default one, it is elided in storage.
    pub fn new(namespace: String, value: String) -> (r: Key)
        ensures
            spec_key(r) == (KeyView {
                namespace: if namespace@ == minecraft_namespace() {
                    None
                } else {
                    Some(namespace@)
                },
                value: value@,
            }),
    {
        let minecraft: String = mc_namespace();
        if namespace == minecraft {
            Key(None, value)
        } else {
            Key(Some(namespace), value)
        }
    }

    /// Creates a new key in the default namespace.
    pub fn minecraft(value: String) -> (r: Key)
        ensures
            spec_key(r) == (KeyView { namespace: None, value: value@ }),
    {
        Key(None, value)
    }

    /// This key's effective namespace.
    pub fn namespace(&self) -> (r: &str)
        ensures
            r@ == spec_namespace(spec_key(*self)),
    {
        match &self.0 {
            Some(namespace) => namespace.as_str(),
            None => "minecraft",
        }
    }

    /// This key's value.
    pub fn value(&self) -> (r: &str)
        ensures
            r@ == spec_key(*self).value,
    {
        self.1.as_str()
    }

    /// The stored namespace: `None` when the default namespace was elided.
    pub fn stored_namespace(&self) -> (r: Option<&str>)
        ensures
            match r {
                Some(n) => spec_key(*self).namespace == Some(n@),
                None => spec_key(*self).namespace is None,
            },
    {
        match &self.0 {
            Some(namespace) => Some(namespace.as_str()),
            None => None,
        }
    }

    /// This key's full string representation, `namespace:value`.
    pub fn to_full_string(&self) -> (r: String)
        ensures
            r@ == spec_key_string(spec_key(*self)),
    {
        let mut out = String::from_str(self.namespace());
        out.append(":");
        out.append(self.value());
        proof {
            reveal_strlit(":");
            assert(out@ =~= spec_key_string(spec_key(*self)));
        }
        out
    }

    /// This key's compact string representation: the bare value when the
    /// namespace is the elided default, else `namespace:value`.
    pub fn to_compact_string(&self) -> (r: String)
        ensures
            r@ == spec_key_compact(spec_key(*self)),
    {
        match &self.0 {
            Some(namespace) => {
                let mut out = namespace.clone();
                out.append(":");
                out.append(self.1.as_str());
                proof {
                    reveal_strlit(":");
                    assert(out@ =~= spec_key_compact(spec_key(*self)));
                }
                out
            },
            None => self.1.clone(),
        }
    }

    /// The parts of this key: the effective namespace, then the value.
    pub fn parts(&self) -> (r: (&str, &str))
        ensures
            r.0@ == spec_namespace(spec_key(*self)),
            r.1@ == spec_key(*self).value,
    {
        (self.namespace(), self.value())
    }

    /// Parses a key from its string form: the part before the first `:` is
    /// the namespace and the rest is the value; with no `:`, the whole string
    /// is a value in the default namespace.
    #[verifier::loop_isolation(false)]
    pub fn parse(text: &str) -> (r: Key)
        ensures
            spec_key(r) == spec_parse_key(text@),
    {
        let n = text.unicode_len();
        let mut i: usize = 0;
        while i < n
            invariant
                0 <= i <= n,
                n == text@.len(),
                forall|j: int| 0 <= j < i ==> text@[j] != ':',
            decreases n - i,
        {
            if text.get_char(i) == ':' {
                let namespace = text.substring_char(0, i);
                let value = text.substring_char(i + 1, n);
                proof {
                    assert(spec_find_colon(text@) == Some(i as int)) by {
                        lemma_find_colon_at(text@, i as int);
                    }
                }
                return Key::new(String::from_str(namespace), String::from_str(value));
            }
            i += 1;
        }
        proof {
            assert(spec_find_colon(text@) is None) by {
                lemma_find_colon_none(text@);
            }
        }
        Key::minecraft(String::from_str(text))
    }
}

/// The position of the first `:` in a sequence, if any.
pub open spec fn spec_find_colon(s: Seq<char>) -> Option<int>
    decreases s.len(),
{
    if s.len() == 0 {
        None
    } else if s[0] == ':' {
        Some(0)
    } else {
        match spec_find_colon(s.skip(1)) {
            Some(i) => Some(i + 1),
            None => None,
        }
    }
}

/// The model of a key parsed from its string form.
pub open spec fn spec_parse_key(s: Seq<char>) -> KeyView {
    match spec_find_colon(s) {
        Some(i) => {
            let namespace = s.take(i);
            let value = s.skip(i + 1);
            KeyView {
                namespace: if namespace == minecraft_namespace() {
                    None
                } else {
                    Some(namespace)
                },
                value: value,
            }
        },
        None => KeyView { namespace: None, value: s },
    }
}

proof fn lemma_find_colon_at(s: Seq<char>, i: int)
    requires
        0 <= i < s.len(),
        s[i] == ':',
        forall|j: int| 0 <= j < i ==> s[j] != ':',
    ensures
        spec_find_colon(s) == Some(i),
    decreases s.len(),
{
    if i == 0 {
    } else {
        assert(forall|j: int| 0 <= j < i - 1 ==> s.skip(1)[j] != ':');
        assert(s.skip(1)[i - 1] == ':');
        lemma_find_colon_at(s.skip(1), i - 1);
    }
}

proof fn lemma_find_colon_none(s: Seq<char>)
    requires
        forall|j: int| 0 <= j < s.len() ==> s[j] != ':',
    ensures
        spec_find_colon(s) is None,
    decreases s.len(),
{
    if s.len() > 0 {
        assert(forall|j: int| 0 <= j < s.skip(1).len() ==> s.skip(1)[j] != ':');
        lemma_find_colon_none(s.skip(1));
    }
}

/// The default namespace as an owned string.
fn mc_namespace() -> (r: String)
    ensures
        r@ == minecraft_namespace(),
{
    String::from_str("minecraft")
}

impl Clone for Key {
    /// Clones the key; the copy has the same model.
    fn clone(&self) -> (r: Self)
        ensures
            spec_key(r) == spec_key(*self),
    {
        let r = Key(
            match &self.0 {
                Some(n) => Some(n.clone()),
                None => None,
            },
            self.1.clone(),
        );
        proof {
            assert(spec_key(r) =~= spec_key(*self));
        }
        r
    }
}

} // verus!
