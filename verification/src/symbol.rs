//! The identifier type itself: validated construction, derived structural
//! accessors, value-based equality and hashing, and the two-phase restore
//! path used for cross-boundary reconstruction.

use vstd::prelude::*;
use vstd::string::StrSliceExecFns;
use vstd::string::StringExecFns;

use crate::errors::ValidationError;
use crate::errors::ValidationViolation;

verus! {

/// Least number of characters a valid symbol value may hold.
pub const MIN_LEN: usize = 1;

/// Greatest number of characters a valid symbol value may hold.
pub const MAX_LEN: usize = 64;

/// The structural separator: a symbol whose value contains it is composite,
/// encoding a root followed by a qualifier.
pub const SEPARATOR: char = '.';

/// A character accepted by validation: printable ASCII other than space.
/// In particular no whitespace of any kind is accepted, so a valid value can
/// never be empty or all-whitespace.
pub open spec fn char_allowed(c: char) -> bool {
    33 <= c as u32 <= 126
}

/// Every character of the sequence is accepted by validation.
pub open spec fn spec_format_ok(s: Seq<char>) -> bool {
    forall|i: int| 0 <= i < s.len() ==> char_allowed(s[i])
}

/// The whole validation rule: length within the inclusive bounds, and every
/// character accepted.
pub open spec fn spec_valid(s: Seq<char>) -> bool {
    &&& MIN_LEN <= s.len() <= MAX_LEN
    &&& spec_format_ok(s)
}

/// The sequence contains the structural separator.
pub open spec fn spec_is_composite(s: Seq<char>) -> bool {
    exists|i: int| 0 <= i < s.len() && s[i] == SEPARATOR
}

/// Index of the first separator, or the sequence's length when it holds none.
pub open spec fn spec_sep_index(s: Seq<char>) -> int
    decreases s.len(),
{
    if s.len() == 0 {
        0
    } else if s[0] == SEPARATOR {
        0
    } else {
        1 + spec_sep_index(s.drop_first())
    }
}

/// The part of the value before the first separator, or the whole value when
/// it holds none.
pub open spec fn spec_root(s: Seq<char>) -> Seq<char> {
    s.take(spec_sep_index(s))
}

/// The derived publish/subscribe key: for a composite value, the root
/// followed by the wildcard `*`; otherwise the value itself.
pub open spec fn spec_topic(s: Seq<char>) -> Seq<char> {
    if spec_is_composite(s) {
        spec_root(s).push('*')
    } else {
        s
    }
}

/// Offset basis of the Fowler-Noll-Vo hash, 64-bit variant.
pub const HASH_OFFSET: u64 = 0xcbf29ce484222325;

/// Multiplicative prime of the Fowler-Noll-Vo hash, 64-bit variant.
pub const HASH_PRIME: u64 = 0x100000001b3;

/// One step of the hash: fold a character's code point into the state.
pub open spec fn spec_hash_step(h: u64, c: char) -> u64 {
    vstd::wrapping::u64_specs::wrapping_mul(h ^ ((c as u32) as u64), HASH_PRIME)
}

/// The hash of a whole value: the Fowler-Noll-Vo fold over its characters.
/// A function of the character sequence alone, so equal values always hash
/// equal.
pub open spec fn spec_hash(s: Seq<char>) -> u64
    decreases s.len(),
{
    if s.len() == 0 {
        HASH_OFFSET
    } else {
        spec_hash_step(spec_hash(s.drop_last()), s.last())
    }
}

/// The diagnostic textual form: the type name around the canonical value.
pub open spec fn spec_debug(s: Seq<char>) -> Seq<char> {
    "Symbol('"@ + s + "')"@
}

/// The sentinel value held by a freshly made placeholder instance, before the
/// restore step of the two-phase reconstruction protocol overwrites it.
pub open spec fn spec_sentinel() -> Seq<char> {
    "NULL"@
}

/// The first-separator index lies within bounds, everything before it is
/// separator-free, and where it lies short of the end it points at a
/// separator.
pub proof fn lemma_sep_index_is_first(s: Seq<char>)
    ensures
        0 <= spec_sep_index(s) <= s.len(),
        forall|j: int| 0 <= j < spec_sep_index(s) ==> s[j] != SEPARATOR,
        spec_sep_index(s) < s.len() ==> s[spec_sep_index(s)] == SEPARATOR,
    decreases s.len(),
{
    if s.len() == 0 {
    } else if s[0] == SEPARATOR {
    } else {
        lemma_sep_index_is_first(s.drop_first());
        assert forall|j: int| 0 <= j < spec_sep_index(s) implies s[j] != SEPARATOR by {
            if j > 0 {
                assert(s.drop_first()[j - 1] != SEPARATOR);
            }
        }
    }
}

/// Any index with a separator-free prefix, pointing at a separator or at the
/// end of a separator-free sequence, is the first-separator index.
pub proof fn lemma_sep_index_unique(s: Seq<char>, i: int)
    requires
        0 <= i <= s.len(),
        forall|j: int| 0 <= j < i ==> s[j] != SEPARATOR,
        i < s.len() ==> s[i] == SEPARATOR,
    ensures
        spec_sep_index(s) == i,
    decreases s.len(),
{
    if s.len() == 0 {
    } else if s[0] == SEPARATOR {
        assert(i == 0);
    } else {
        assert(i > 0);
        assert forall|j: int| 0 <= j < i - 1 implies s.drop_first()[j] != SEPARATOR by {
            assert(s[j + 1] != SEPARATOR);
        }
        lemma_sep_index_unique(s.drop_first(), i - 1);
    }
}

/// A sequence is composite exactly when its first-separator index lies short
/// of its end.
pub proof fn lemma_composite_iff_sep_found(s: Seq<char>)
    ensures
        spec_is_composite(s) <==> spec_sep_index(s) < s.len(),
{
    lemma_sep_index_is_first(s);
    if spec_is_composite(s) {
        let w = choose|i: int| 0 <= i < s.len() && s[i] == SEPARATOR;
        assert(spec_sep_index(s) < s.len()) by {
            if spec_sep_index(s) == s.len() {
                assert(s[w] != SEPARATOR);
            }
        }
    }
}

/// The root of any value is free of the separator.
pub proof fn lemma_root_separator_free(s: Seq<char>)
    ensures
        forall|j: int| 0 <= j < spec_root(s).len() ==> spec_root(s)[j] != SEPARATOR,
{
    lemma_sep_index_is_first(s);
}

/// A comparison operation requested by a host comparison protocol.
#[derive(Clone, Copy, Debug, PartialEq, Eq, Structural)]
pub enum CmpOp {
    Eq,
    Ne,
    Lt,
    Le,
    Gt,
    Ge,
}

/// The outcome of a lexicographic comparison of two canonical strings.
#[derive(Clone, Copy, Debug, PartialEq, Eq, Structural)]
pub enum LexOrdering {
    Less,
    Equal,
    Greater,
}

/// Lexicographic comparison of two character sequences by code point, the
/// shorter sequence ordered first when one is a prefix of the other.
pub open spec fn spec_lex_cmp(a: Seq<char>, b: Seq<char>) -> LexOrdering
    decreases a.len(),
{
    if a.len() == 0 && b.len() == 0 {
        LexOrdering::Equal
    } else if a.len() == 0 {
        LexOrdering::Less
    } else if b.len() == 0 {
        LexOrdering::Greater
    } else if (a[0] as u32) < (b[0] as u32) {
        LexOrdering::Less
    } else if (b[0] as u32) < (a[0] as u32) {
        LexOrdering::Greater
    } else {
        spec_lex_cmp(a.drop_first(), b.drop_first())
    }
}

/// Dropping an equal prefix from both sequences leaves the lexicographic
/// comparison unchanged.
proof fn lemma_lex_cmp_skip(a: Seq<char>, b: Seq<char>, i: int)
    requires
        0 <= i <= a.len(),
        i <= b.len(),
        forall|j: int| 0 <= j < i ==> (a[j] as u32) == (b[j] as u32),
    ensures
        spec_lex_cmp(a, b) == spec_lex_cmp(a.skip(i), b.skip(i)),
    decreases i,
{
    if i == 0 {
        assert(a.skip(0) =~= a);
        assert(b.skip(0) =~= b);
    } else {
        assert forall|j: int| 0 <= j < i - 1 implies (a.drop_first()[j] as u32) == (
        b.drop_first()[j] as u32) by {
            assert((a[j + 1] as u32) == (b[j + 1] as u32));
        }
        lemma_lex_cmp_skip(a.drop_first(), b.drop_first(), i - 1);
        assert(a.drop_first().skip(i - 1) =~= a.skip(i));
        assert(b.drop_first().skip(i - 1) =~= b.skip(i));
    }
}

/// An immutable, validated, string-backed identifier.
///
/// The canonical string is the sole state: equality, hashing, display and
/// every derived accessor are functions of it alone.
#[derive(Debug)]
pub struct Symbol {
    inner: String,
}

impl Clone for Symbol {
    /// The clone holds the same canonical string.
    fn clone(&self) -> (r: Self)
        ensures
            r@ == self@,
    {
        Symbol { inner: self.inner.clone() }
    }
}

impl PartialEq for Symbol {
    fn eq(&self, other: &Symbol) -> (r: bool) {
        self.inner == other.inner
    }
}

impl Eq for Symbol {

}

impl vstd::std_specs::cmp::PartialEqSpecImpl for Symbol {
    open spec fn obeys_eq_spec() -> bool {
        true
    }

    open spec fn eq_spec(&self, other: &Symbol) -> bool {
        self@ == other@
    }
}

impl View for Symbol {
    type V = Seq<char>;

    closed spec fn view(&self) -> Seq<char> {
        self.inner@
    }
}

impl Symbol {
    /// Checked construction: validates the input against the length bounds
    /// and the character rule, and on success holds exactly the input string,
    /// neither trimmed nor case-folded. On failure reports the violated
    /// constraint together with the offending value.
    pub fn new_checked(value: &str) -> (r: Result<Symbol, ValidationError>)
        ensures
            match r {
                Ok(sym) => spec_valid(value@) && sym@ == value@,
                Err(e) => {
                    &&& !spec_valid(value@)
                    &&& e.value@ == value@
                    &&& e.violation == (if value@.len() < MIN_LEN {
                        ValidationViolation::LengthUnderMinimum
                    } else if value@.len() > MAX_LEN {
                        ValidationViolation::LengthOverMaximum
                    } else {
                        ValidationViolation::DisallowedCharacter
                    })
                },
            },
    {
        let len = value.unicode_len();
        if len < MIN_LEN {
            return Err(ValidationError {
                violation: ValidationViolation::LengthUnderMinimum,
                value: value.to_owned(),
            });
        }
        if len > MAX_LEN {
            return Err(ValidationError {
                violation: ValidationViolation::LengthOverMaximum,
                value: value.to_owned(),
            });
        }
        let mut i: usize = 0;
        while i < len
            invariant
                len == value@.len(),
                MIN_LEN <= len <= MAX_LEN,
                0 <= i <= len,
                forall|j: int| 0 <= j < i ==> char_allowed(value@[j]),
            decreases len - i,
        {
            let code: u32 = value.get_char(i) as u32;
            if code < 33 || code > 126 {
                proof {
                    assert(!char_allowed(value@[i as int]));
                }
                return Err(ValidationError {
                    violation: ValidationViolation::DisallowedCharacter,
                    value: value.to_owned(),
                });
            }
            i += 1;
        }
        Ok(Symbol { inner: value.to_owned() })
    }

    /// Factory-style entry point, behaviorally identical to `new_checked`.
    pub fn from_str(value: &str) -> (r: Result<Symbol, ValidationError>)
        ensures
            match r {
                Ok(sym) => spec_valid(value@) && sym@ == value@,
                Err(e) => {
                    &&& !spec_valid(value@)
                    &&& e.value@ == value@
                    &&& e.violation == (if value@.len() < MIN_LEN {
                        ValidationViolation::LengthUnderMinimum
                    } else if value@.len() > MAX_LEN {
                        ValidationViolation::LengthOverMaximum
                    } else {
                        ValidationViolation::DisallowedCharacter
                    })
                },
            },
    {
        Self::new_checked(value)
    }

    /// First phase of the two-phase reconstruction protocol: a placeholder
    /// instance holding the reserved sentinel value, never valid for domain
    /// use. Not a general-purpose constructor.
    pub fn unchecked_default() -> (r: Symbol)
        ensures
            r@ == spec_sentinel(),
    {
        Symbol { inner: String::from_str("NULL") }
    }

    /// Producer side of the reconstruction protocol: the single-field state,
    /// exactly the canonical string.
    pub fn state(&self) -> (r: String)
        ensures
            r@ == self@,
    {
        self.inner.clone()
    }

    /// Restore step of the reconstruction protocol: overwrites the held
    /// value unconditionally and without re-validation, trusting that the
    /// producer's value passed checked construction.
    pub fn set_inner(&mut self, value: &str)
        ensures
            final(self)@ == value@,
    {
        self.inner = value.to_owned();
    }

    /// Consumer side of the reconstruction protocol, whole: placeholder
    /// construction followed by the restore step. The result holds exactly
    /// the incoming state, so rebuilding from a symbol's own emitted state
    /// yields an equal symbol.
    pub fn reconstruct(state: &str) -> (r: Symbol)
        ensures
            r@ == state@,
    {
        let mut sym = Symbol::unchecked_default();
        sym.set_inner(state);
        sym
    }

    /// The canonical textual form: exactly the held value, undecorated.
    pub fn to_string(&self) -> (r: String)
        ensures
            r@ == self@,
    {
        self.inner.clone()
    }

    /// The held value, as an owned string; identical to `to_string`.
    pub fn value(&self) -> (r: String)
        ensures
            r@ == self@,
    {
        self.to_string()
    }

    /// Value-based equality: two symbols are equal exactly when their
    /// canonical strings are identical.
    pub fn equals(&self, other: &Symbol) -> (r: bool)
        ensures
            r == (self@ == other@),
    {
        self.inner == other.inner
    }

    /// A stable, value-based hash: deterministic within and across runs,
    /// equal for equal canonical strings.
    pub fn hash(&self) -> (r: u64)
        ensures
            r == spec_hash(self@),
    {
        let s = self.inner.as_str();
        let len = s.unicode_len();
        let mut h: u64 = HASH_OFFSET;
        let mut i: usize = 0;
        while i < len
            invariant
                s@ == self@,
                len == self@.len(),
                0 <= i <= len,
                h == spec_hash(self@.take(i as int)),
            decreases len - i,
        {
            let code: u32 = s.get_char(i) as u32;
            h = (h ^ (code as u64)).wrapping_mul(HASH_PRIME);
            proof {
                let t = self@.take(i + 1);
                assert(t.drop_last() =~= self@.take(i as int));
                assert(t.last() == self@[i as int]);
            }
            i += 1;
        }
        proof {
            assert(self@.take(len as int) =~= self@);
        }
        h
    }

    /// The diagnostic textual form, embedding the type name and the
    /// canonical value; distinct from `to_string` and never used for
    /// equality or persistence.
    pub fn to_debug_string(&self) -> (r: String)
        ensures
            r@ == spec_debug(self@),
    {
        let m = String::from_str("Symbol('");
        let m = m.concat(self.inner.as_str());
        let m = m.concat("')");
        proof {
            assert(m@ =~= spec_debug(self@));
        }
        m
    }

    /// Host-facing comparison with duck-typed dispatch already resolved: the
    /// caller passes `Some` when the right-hand operand could be coerced to a
    /// symbol, `None` when it could not. Only equality and inequality are
    /// supported; every other request, and any non-symbol operand, answers
    /// `None`, meaning "unsupported" rather than false.
    pub fn richcmp(&self, other: Option<&Symbol>, op: CmpOp) -> (r: Option<bool>)
        ensures
            match other {
                Some(o) => match op {
                    CmpOp::Eq => r == Some(self@ == o@),
                    CmpOp::Ne => r == Some(self@ != o@),
                    _ => r is None,
                },
                None => r is None,
            },
    {
        match other {
            Some(o) => match op {
                CmpOp::Eq => Some(self.equals(o)),
                CmpOp::Ne => Some(!self.equals(o)),
                _ => None,
            },
            None => None,
        }
    }

    /// Pure lexicographic comparison of the canonical strings, by code
    /// point; offered for hosts that need an order for display or sorting,
    /// apart from the equality protocol.
    pub fn compare_lexical(&self, other: &Symbol) -> (r: LexOrdering)
        ensures
            r == spec_lex_cmp(self@, other@),
    {
        let a = self.inner.as_str();
        let b = other.inner.as_str();
        let alen = a.unicode_len();
        let blen = b.unicode_len();
        let mut i: usize = 0;
        while i < alen && i < blen
            invariant
                a@ == self@,
                b@ == other@,
                alen == self@.len(),
                blen == other@.len(),
                0 <= i <= alen,
                i <= blen,
                forall|j: int| 0 <= j < i ==> (self@[j] as u32) == (other@[j] as u32),
            decreases alen - i,
        {
            let ca: u32 = a.get_char(i) as u32;
            let cb: u32 = b.get_char(i) as u32;
            if ca < cb {
                proof {
                    lemma_lex_cmp_skip(self@, other@, i as int);
                    assert(self@.skip(i as int)[0] == self@[i as int]);
                    assert(other@.skip(i as int)[0] == other@[i as int]);
                }
                return LexOrdering::Less;
            }
            if cb < ca {
                proof {
                    lemma_lex_cmp_skip(self@, other@, i as int);
                    assert(self@.skip(i as int)[0] == self@[i as int]);
                    assert(other@.skip(i as int)[0] == other@[i as int]);
                }
                return LexOrdering::Greater;
            }
            i += 1;
        }
        proof {
            lemma_lex_cmp_skip(self@, other@, i as int);
        }
        if i < blen {
            LexOrdering::Less
        } else if i < alen {
            LexOrdering::Greater
        } else {
            LexOrdering::Equal
        }
    }

    /// Index of the first separator in the held value, or the value's length
    /// when it holds none.
    fn find_sep(&self) -> (i: usize)
        ensures
            i == spec_sep_index(self@),
            i <= self@.len(),
    {
        let s = self.inner.as_str();
        let len = s.unicode_len();
        let mut i: usize = 0;
        while i < len
            invariant
                s@ == self@,
                len == self@.len(),
                0 <= i <= len,
                forall|j: int| 0 <= j < i ==> self@[j] != SEPARATOR,
            decreases len - i,
        {
            if s.get_char(i) == SEPARATOR {
                proof {
                    lemma_sep_index_unique(self@, i as int);
                }
                return i;
            }
            i += 1;
        }
        proof {
            lemma_sep_index_unique(self@, len as int);
        }
        len
    }

    /// Whether the value contains the structural separator, i.e. encodes a
    /// root followed by a qualifier.
    pub fn is_composite(&self) -> (r: bool)
        ensures
            r == spec_is_composite(self@),
    {
        let len = self.inner.as_str().unicode_len();
        let i = self.find_sep();
        proof {
            lemma_composite_iff_sep_found(self@);
        }
        i < len
    }

    /// The part of the value before the first separator, or the whole value
    /// when the symbol is not composite. Borrowed from the owning symbol.
    pub fn root<'a>(&'a self) -> (r: &'a str)
        ensures
            r@ == spec_root(self@),
    {
        let i = self.find_sep();
        let r = self.inner.as_str().substring_char(0, i);
        proof {
            assert(r@ =~= spec_root(self@));
        }
        r
    }

    /// The derived publish/subscribe key, newly allocated: for a composite
    /// value the root followed by the wildcard `*`, otherwise the value
    /// itself.
    pub fn topic(&self) -> (r: String)
        ensures
            r@ == spec_topic(self@),
    {
        let len = self.inner.as_str().unicode_len();
        let i = self.find_sep();
        proof {
            lemma_composite_iff_sep_found(self@);
        }
        if i < len {
            let root = self.inner.as_str().substring_char(0, i);
            let t = String::from_str(root).concat("*");
            proof {
                reveal_strlit("*");
                assert(t@ =~= spec_topic(self@));
            }
            t
        } else {
            self.inner.clone()
        }
    }
}

/// Law: hashing is consistent with equality — symbols whose canonical
/// strings are identical hash identically, since the hash is a function of
/// the character sequence alone.
pub proof fn lemma_equal_values_hash_equal(a: &Symbol, b: &Symbol)
    requires
        a@ == b@,
    ensures
        spec_hash(a@) == spec_hash(b@),
{
}

/// Law: every derivation is a function of the canonical value alone, with no
/// hidden state — two symbols holding identical canonical strings agree on
/// every derived accessor, and repeated calls on one instance, which never
/// mutate it, therefore agree as well.
pub proof fn lemma_derivations_determined_by_value(a: &Symbol, b: &Symbol)
    requires
        a@ == b@,
    ensures
        spec_is_composite(a@) == spec_is_composite(b@),
        spec_root(a@) == spec_root(b@),
        spec_topic(a@) == spec_topic(b@),
        spec_hash(a@) == spec_hash(b@),
        spec_debug(a@) == spec_debug(b@),
{
}

/// Law: the topic of a composite value is non-empty and distinct from the
/// value itself.
pub proof fn lemma_topic_nonempty_and_distinct(s: Seq<char>)
    requires
        spec_is_composite(s),
    ensures
        spec_topic(s).len() > 0,
        spec_topic(s) != s,
{
    lemma_root_separator_free(s);
    let t = spec_topic(s);
    assert(t == spec_root(s).push('*'));
    assert forall|j: int| 0 <= j < t.len() implies t[j] != SEPARATOR by {
        if j < spec_root(s).len() {
            assert(t[j] == spec_root(s)[j]);
        } else {
            assert(t[j] == '*');
        }
    }
    let w = choose|i: int| 0 <= i < s.len() && s[i] == SEPARATOR;
    if t == s {
        assert(t[w] == SEPARATOR);
    }
}

/// Law: the diagnostic form embeds the canonical form — it carries it whole
/// as a contiguous part — yet never equals it.
pub proof fn lemma_debug_embeds_canonical(s: Seq<char>)
    ensures
        spec_debug(s) != s,
        spec_debug(s).subrange(8, 8 + s.len() as int) == s,
{
    reveal_strlit("Symbol('");
    reveal_strlit("')");
    assert(spec_debug(s).len() == s.len() + 10);
    assert(spec_debug(s).subrange(8, 8 + s.len() as int) =~= s);
}

} // verus!
