use vstd::prelude::*;
use vstd::string::*;

verus! {

/// Characters that both end the pending token and are emitted as
/// single-character tokens of their own.
pub open spec fn is_special_char(c: char) -> bool {
    c == '(' || c == ')' || c == '{' || c == '}' || c == '[' || c == ']' || c == '+' || c == '-'
        || c == '*' || c == '/' || c == '^' || c == ':' || c == ';' || c == '"' || c == '='
}

/// The Unicode `White_Space` set, written out code point by code point:
/// the characters `char::is_whitespace` accepts.  A whitespace character
/// is a token boundary and is never itself emitted.
pub open spec fn is_whitespace_char(c: char) -> bool {
    c as u32 == 0x09 || c as u32 == 0x0A || c as u32 == 0x0B || c as u32 == 0x0C || c as u32
        == 0x0D || c as u32 == 0x20 || c as u32 == 0x85 || c as u32 == 0xA0 || c as u32 == 0x1680
        || (0x2000 <= c as u32 && c as u32 <= 0x200A) || c as u32 == 0x2028 || c as u32 == 0x2029
        || c as u32 == 0x202F || c as u32 == 0x205F || c as u32 == 0x3000
}

/// The tokens of `rest`, given the tokens `out` already emitted and the
/// identifier characters `pending` accumulated so far.  This is the
/// left-to-right scan itself, written as a fold: a whitespace character
/// flushes the pending buffer, a special character flushes it and is then
/// emitted alone, and any other character is appended to the buffer.
pub open spec fn lex_from(out: Seq<Seq<char>>, pending: Seq<char>, rest: Seq<char>) -> Seq<
    Seq<char>,
>
    decreases rest.len(),
{
    if rest.len() == 0 {
        if pending.len() > 0 {
            out.push(pending)
        } else {
            out
        }
    } else {
        let c = rest[0];
        if is_whitespace_char(c) {
            let out2 = if pending.len() > 0 {
                out.push(pending)
            } else {
                out
            };
            lex_from(out2, Seq::empty(), rest.drop_first())
        } else if is_special_char(c) {
            let out2 = if pending.len() > 0 {
                out.push(pending)
            } else {
                out
            };
            lex_from(out2.push(seq![c]), Seq::empty(), rest.drop_first())
        } else {
            lex_from(out, pending.push(c), rest.drop_first())
        }
    }
}

/// The token sequence of a whole source text.
pub open spec fn spec_tokens(source: Seq<char>) -> Seq<Seq<char>> {
    lex_from(Seq::empty(), Seq::empty(), source)
}

/// The non-whitespace skeleton of a text: its characters with all
/// whitespace removed, in order.
pub open spec fn non_whitespace(s: Seq<char>) -> Seq<char>
    decreases s.len(),
{
    if s.len() == 0 {
        Seq::empty()
    } else if is_whitespace_char(s[0]) {
        non_whitespace(s.drop_first())
    } else {
        seq![s[0]] + non_whitespace(s.drop_first())
    }
}

/// Relies on `core::iter::Iterator::collect`: collecting a sequence of
/// characters into a `String` yields the string of exactly those
/// characters, in order.
#[verifier::external_body]
pub(crate) fn chars_to_string(chars: &Vec<char>) -> (r: String)
    ensures
        r@ == chars@,
{
    chars.iter().collect()
}

/// The lexer: a pending character buffer and the tokens emitted so far.
pub struct Lexer {
    result: Vec<String>,
    token_characters: Vec<char>,
}

impl Lexer {
    /// Splits a source text into its tokens, left to right.  Whitespace
    /// separates tokens and is dropped; each special character is a
    /// one-character token of its own; every other maximal run of
    /// characters is one token.
    ///
    /// Quoted text is not scanned as a single string token: `"` is an
    /// ordinary one-character token, so the words between two quotes come
    /// out whitespace-split.  Multi-character operators such as `<<` are
    /// likewise only recognized downstream when they are whitespace-set
    /// apart, since `<` is not a boundary character.  Both are deliberate
    /// properties of this boundary-character design.
    pub fn tokenize(input: String) -> (r: Vec<String>)
        ensures
            r.deep_view() == spec_tokens(input@),
    {
        let result: Vec<String> = Vec::new();
        let token_characters: Vec<char> = Vec::new();
        proof {
            assert(result.deep_view() =~= Seq::<Seq<char>>::empty());
            assert(token_characters@ =~= Seq::<char>::empty());
        }
        let mut lexer = Self { result, token_characters };
        lexer.process(input);
        lexer.result
    }

    /// Flushes the pending buffer as one finished token.
    fn consume_token(&mut self)
        ensures
            final(self).result.deep_view() == old(self).result.deep_view().push(
                old(self).token_characters@,
            ),
            final(self).token_characters@ == Seq::<char>::empty(),
    {
        let token: String = chars_to_string(&self.token_characters);
        self.result.push(token);
        self.token_characters.clear();
        proof {
            assert(self.result.deep_view() =~= old(self).result.deep_view().push(
                old(self).token_characters@,
            ));
        }
    }

    /// Whether a character ends the pending token.
    fn is_token_break(character: &char) -> (r: bool)
        ensures
            r == (is_whitespace_char(*character) || is_special_char(*character)),
    {
        Self::is_whitespace_character(character) || Self::is_special_character(character)
    }

    /// Whether a character is one of the fixed boundary characters that
    /// are emitted as single-character tokens.
    fn is_special_character(character: &char) -> (r: bool)
        ensures
            r == is_special_char(*character),
    {
        match character {
            '(' | ')' | '{' | '}' | '[' | ']' | '+' | '-' | '*' | '/' | '^' | ':' | ';' | '"'
                | '=' => true,
            _ => false,
        }
    }

    /// Whether a character is whitespace, under the Unicode `White_Space`
    /// set.
    fn is_whitespace_character(character: &char) -> (r: bool)
        ensures
            r == is_whitespace_char(*character),
    {
        let cu: u32 = *character as u32;
        cu == 0x09 || cu == 0x0A || cu == 0x0B || cu == 0x0C || cu == 0x0D || cu == 0x20 || cu
            == 0x85 || cu == 0xA0 || cu == 0x1680 || (0x2000 <= cu && cu <= 0x200A) || cu == 0x2028
            || cu == 0x2029 || cu == 0x202F || cu == 0x205F || cu == 0x3000
    }

    /// Whether a character belongs in some token at all.
    fn should_consume(character: &char) -> (r: bool)
        ensures
            r == !is_whitespace_char(*character),
    {
        !Self::is_whitespace_character(character)
    }

    /// Runs the scan over the whole input, flushing the final token if one
    /// is pending at the end.
    fn process(&mut self, input: String)
        ensures
            final(self).result.deep_view() == lex_from(
                old(self).result.deep_view(),
                old(self).token_characters@,
                input@,
            ),
    {
        let n: usize = input.as_str().unicode_len();
        let ghost target = lex_from(
            old(self).result.deep_view(),
            old(self).token_characters@,
            input@,
        );
        proof {
            assert(input@.skip(0) =~= input@);
        }
        let mut i: usize = 0;
        while i < n
            invariant
                n == input@.len(),
                i <= n,
                lex_from(self.result.deep_view(), self.token_characters@, input@.skip(i as int))
                    == target,
            decreases n - i,
        {
            let ghost rest = input@.skip(i as int);
            let ghost out0 = self.result.deep_view();
            let ghost pending0 = self.token_characters@;
            let character = input.as_str().get_char(i);
            proof {
                assert(rest[0] == character);
                assert(rest.drop_first() =~= input@.skip(i as int + 1));
            }

            if self.token_characters.len() > 0 && Self::is_token_break(&character) {
                self.consume_token();
            }
            let ghost out1 = self.result.deep_view();
            proof {
                if pending0.len() > 0 && (is_whitespace_char(character) || is_special_char(
                    character,
                )) {
                    assert(out1 == out0.push(pending0));
                } else {
                    assert(out1 == out0);
                }
            }

            if Self::should_consume(&character) {
                self.token_characters.push(character);

                if Self::is_special_character(&character) {
                    proof {
                        assert(self.token_characters@ =~= seq![character]);
                    }
                    self.consume_token();
                    proof {
                        assert(self.result.deep_view() == out1.push(seq![character]));
                        assert(lex_from(
                            self.result.deep_view(),
                            self.token_characters@,
                            input@.skip(i as int + 1),
                        ) == target);
                    }
                } else {
                    proof {
                        assert(self.token_characters@ == pending0.push(character));
                        assert(lex_from(
                            self.result.deep_view(),
                            self.token_characters@,
                            input@.skip(i as int + 1),
                        ) == target);
                    }
                }
            } else {
                proof {
                    assert(is_whitespace_char(character));
                    assert(self.token_characters@ =~= Seq::<char>::empty());
                    assert(lex_from(
                        self.result.deep_view(),
                        self.token_characters@,
                        input@.skip(i as int + 1),
                    ) == target);
                }
            }
            i = i + 1;
        }
        proof {
            assert(input@.skip(n as int) =~= Seq::<char>::empty());
        }
        if self.token_characters.len() > 0 {
            self.consume_token();
        }
    }
}

/// No character of any source text is lost or invented by the scan: the
/// emitted tokens, concatenated in order, are exactly the non-whitespace
/// skeleton of the input.
pub proof fn lemma_tokens_preserve_characters(source: Seq<char>)
    ensures
        spec_tokens(source).flatten() == non_whitespace(source),
{
    lemma_lex_from_flatten(Seq::empty(), Seq::empty(), source);
    assert(Seq::<Seq<char>>::empty().flatten() + Seq::<char>::empty() + non_whitespace(source)
        =~= non_whitespace(source));
}

/// Whether every token of a token sequence holds at least one character.
pub open spec fn all_nonempty(ts: Seq<Seq<char>>) -> bool {
    forall|i: int| 0 <= i < ts.len() ==> #[trigger] ts[i].len() > 0
}

/// Every token the scan emits is non-empty.
pub proof fn lemma_tokens_nonempty(source: Seq<char>)
    ensures
        all_nonempty(spec_tokens(source)),
{
    lemma_lex_from_nonempty(Seq::empty(), Seq::empty(), source);
}

proof fn lemma_all_nonempty_push(ts: Seq<Seq<char>>, t: Seq<char>)
    requires
        all_nonempty(ts),
        t.len() > 0,
    ensures
        all_nonempty(ts.push(t)),
{
    assert forall|i: int| 0 <= i < ts.push(t).len() implies #[trigger] ts.push(t)[i].len() > 0 by {
        if i < ts.len() {
            assert(ts.push(t)[i] == ts[i]);
        }
    }
}

proof fn lemma_lex_from_flatten(out: Seq<Seq<char>>, pending: Seq<char>, rest: Seq<char>)
    ensures
        lex_from(out, pending, rest).flatten() == out.flatten() + pending + non_whitespace(rest),
    decreases rest.len(),
{
    broadcast use Seq::lemma_flatten_push;

    let all = out.flatten() + pending + non_whitespace(rest);
    if rest.len() == 0 {
        if pending.len() > 0 {
            assert(out.push(pending).flatten() =~= all);
        } else {
            assert(out.flatten() =~= all);
        }
    } else {
        let c = rest[0];
        let rest2 = rest.drop_first();
        let out2 = if pending.len() > 0 {
            out.push(pending)
        } else {
            out
        };
        assert(out2.flatten() == out.flatten() + pending || (pending.len() == 0 && out2.flatten()
            =~= out.flatten() + pending));
        if is_whitespace_char(c) {
            lemma_lex_from_flatten(out2, Seq::empty(), rest2);
            assert(out2.flatten() + Seq::<char>::empty() + non_whitespace(rest2) =~= all);
        } else if is_special_char(c) {
            let out3 = out2.push(seq![c]);
            lemma_lex_from_flatten(out3, Seq::empty(), rest2);
            assert(out3.flatten() + Seq::<char>::empty() + non_whitespace(rest2) =~= all);
        } else {
            lemma_lex_from_flatten(out, pending.push(c), rest2);
            assert(out.flatten() + pending.push(c) + non_whitespace(rest2) =~= all);
        }
    }
}

proof fn lemma_lex_from_nonempty(out: Seq<Seq<char>>, pending: Seq<char>, rest: Seq<char>)
    requires
        all_nonempty(out),
    ensures
        all_nonempty(lex_from(out, pending, rest)),
    decreases rest.len(),
{
    if rest.len() == 0 {
        if pending.len() > 0 {
            lemma_all_nonempty_push(out, pending);
        }
    } else {
        let c = rest[0];
        let rest2 = rest.drop_first();
        let out2 = if pending.len() > 0 {
            lemma_all_nonempty_push(out, pending);
            out.push(pending)
        } else {
            out
        };
        if is_whitespace_char(c) {
            lemma_lex_from_nonempty(out2, Seq::empty(), rest2);
        } else if is_special_char(c) {
            lemma_all_nonempty_push(out2, seq![c]);
            lemma_lex_from_nonempty(out2.push(seq![c]), Seq::empty(), rest2);
        } else {
            lemma_lex_from_nonempty(out, pending.push(c), rest2);
        }
    }
}

} // verus!
