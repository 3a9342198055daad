//! The whole translation: read the source, take up its labels, then encode
//! its instructions in order.

use vstd::prelude::*;
use vstd::string::StringExecFns;
use crate::encoder::{
    encode,
    is_literal,
    is_word,
    lemma_encode_keeps_bindings,
    lemma_encode_word,
    to_binary_string,
};
use crate::error::{outcome, AssembleError, Failure};
use crate::instruction::{instruction_count, Instruction, Statement};
use crate::parser::{parse, parse_spec};
use crate::symbols::{build_symbol_table, resolve_labels, Symbols, FIRST_VARIABLE};

verus! {

/// The words of a program, in order, and the symbol table after its last
/// instruction, starting from `symbols`; or the failure of the first
/// instruction that cannot be encoded.
pub open spec fn encode_all(program: Seq<Statement>, symbols: Symbols) -> Result<
    (Seq<Seq<char>>, Symbols),
    Failure,
>
    decreases program.len(),
{
    if program.len() == 0 {
        Ok((Seq::empty(), symbols))
    } else {
        match encode_all(program.drop_last(), symbols) {
            Err(e) => Err(e),
            Ok((words, before)) => match encode(program.last(), before) {
                Err(e) => Err(e),
                Ok((None, after)) => Ok((words, after)),
                Ok((Some(word), after)) => Ok((words.push(word), after)),
            },
        }
    }
}

/// The text of a translated program: its words in order, each followed by a
/// line feed.
pub open spec fn listing(words: Seq<Seq<char>>) -> Seq<char>
    decreases words.len(),
{
    if words.len() == 0 {
        Seq::empty()
    } else {
        listing(words.drop_last()) + words.last() + seq!['\n']
    }
}

/// The translation of a source text. The source is read to the end first,
/// then all its labels are taken up, and only then are its instructions
/// encoded, in order; so the failures come in that order too.
pub open spec fn translation(source: Seq<char>) -> Result<Seq<char>, Failure> {
    match parse_spec(source) {
        Err(e) => Err(e),
        Ok(program) => match resolve_labels(program) {
            Err(e) => Err(e),
            Ok(labels) => match encode_all(program, Symbols::initial(labels)) {
                Err(e) => Err(e),
                Ok((words, _)) => Ok(listing(words)),
            },
        },
    }
}

/// A failure among the instructions encoded so far stays the failure of the
/// whole program.
pub proof fn lemma_encode_all_failed(program: Seq<Statement>, symbols: Symbols, i: int)
    requires
        0 <= i <= program.len(),
        encode_all(program.take(i), symbols) is Err,
    ensures
        encode_all(program, symbols) == encode_all(program.take(i), symbols),
    decreases program.len() - i,
{
    if i < program.len() {
        assert(program.take(i + 1).drop_last() =~= program.take(i));
        lemma_encode_all_failed(program, symbols, i + 1);
    } else {
        assert(program.take(i) =~= program);
    }
}

/// Translates an assembly program into machine language: one line of
/// sixteen binary digits for each instruction that is no label, in the order
/// of the source. The result depends on the text alone. Nothing is returned
/// of a program that fails.
pub fn translate(input: String) -> (r: Result<String, AssembleError>)
    ensures
        outcome(r) == translation(input@),
{
    let ghost source = input@;
    let instructions: Vec<Instruction> = parse(input)?;
    let mut symbols = build_symbol_table(&instructions)?;
    let ghost program = instructions.deep_view();
    let ghost start = symbols@;
    assert(start == Symbols::initial(start.addresses));
    let ghost mut words: Seq<Seq<char>> = Seq::empty();
    let mut output = String::new();
    assert(program.take(0) =~= Seq::<Statement>::empty());
    let mut i: usize = 0;
    while i < instructions.len()
        invariant
            i <= instructions.len(),
            program == instructions.deep_view(),
            source == input@,
            parse_spec(source) == Ok::<Seq<Statement>, Failure>(program),
            resolve_labels(program) == Ok::<Map<Seq<char>, nat>, Failure>(start.addresses),
            start == Symbols::initial(start.addresses),
            encode_all(program.take(i as int), start) == Ok::<(Seq<Seq<char>>, Symbols), Failure>(
                (words, symbols@),
            ),
            output@ == listing(words),
        decreases instructions.len() - i,
    {
        proof {
            assert(program.take(i + 1).drop_last() =~= program.take(i as int));
            assert(program.take(i + 1).last() == instructions@[i as int]@);
        }
        match to_binary_string(&instructions[i], &mut symbols) {
            Err(e) => {
                proof {
                    lemma_encode_all_failed(program, start, i + 1);
                }
                return Err(e);
            },
            Ok(None) => {},
            Ok(Some(word)) => {
                output.append(word.as_str());
                output.push('\n');
                proof {
                    assert(words.push(word@).drop_last() =~= words);
                    assert(output@ =~= listing(words) + word@ + seq!['\n']);
                    words = words.push(word@);
                }
            },
        }
        i += 1;
    }
    assert(program.take(i as int) =~= program);
    Ok(output)
}

/// The variables of a program, each once, in the order in which the program
/// first refers to them. A variable is a symbol of an address instruction
/// that is no literal and is not bound in `labels`.
pub open spec fn variables(program: Seq<Statement>, labels: Map<Seq<char>, nat>) -> Seq<Seq<char>>
    decreases program.len(),
{
    if program.len() == 0 {
        Seq::empty()
    } else {
        let earlier = variables(program.drop_last(), labels);
        match program.last() {
            Statement::A { value } => if !is_literal(value) && !labels.contains_key(value)
                && !earlier.contains(value) {
                earlier.push(value)
            } else {
                earlier
            },
            _ => earlier,
        }
    }
}

/// Encoding a program never changes what a name is bound to, and never
/// lowers the address of the next variable.
pub proof fn lemma_encode_all_keeps_bindings(program: Seq<Statement>, symbols: Symbols)
    requires
        encode_all(program, symbols) is Ok,
    ensures
        symbols.addresses.submap_of(encode_all(program, symbols)->Ok_0.1.addresses),
        symbols.next_variable <= encode_all(program, symbols)->Ok_0.1.next_variable,
    decreases program.len(),
{
    if program.len() > 0 {
        lemma_encode_all_keeps_bindings(program.drop_last(), symbols);
        let before = encode_all(program.drop_last(), symbols)->Ok_0.1;
        lemma_encode_keeps_bindings(program.last(), before);
    }
}

/// The variables of a program get the addresses from `FIRST_VARIABLE` on,
/// one after the other in the order in which the program first refers to
/// them: the variable at place `k` of `variables` is bound to
/// `FIRST_VARIABLE + k`. No variable stands twice in `variables`, so no two
/// of them share an address. Besides the variables the table holds what
/// `labels` held, unchanged, and nothing else.
pub proof fn lemma_variable_addresses(program: Seq<Statement>, labels: Map<Seq<char>, nat>)
    requires
        encode_all(program, Symbols::initial(labels)) is Ok,
    ensures
        variables(program, labels).no_duplicates(),
        encode_all(program, Symbols::initial(labels))->Ok_0.1.next_variable == FIRST_VARIABLE
            + variables(program, labels).len(),
        forall|k: int|
            0 <= k < variables(program, labels).len() ==> {
                let name = #[trigger] variables(program, labels)[k];
                let table = encode_all(program, Symbols::initial(labels))->Ok_0.1.addresses;
                table.contains_key(name) && table[name] == FIRST_VARIABLE + k
            },
        forall|name: Seq<char>|
            #![auto]
            encode_all(program, Symbols::initial(labels))->Ok_0.1.addresses.contains_key(name)
                <==> labels.contains_key(name) || variables(program, labels).contains(name),
        labels.submap_of(encode_all(program, Symbols::initial(labels))->Ok_0.1.addresses),
        forall|k: int|
            0 <= k < variables(program, labels).len() ==> !labels.contains_key(
                #[trigger] variables(program, labels)[k],
            ),
    decreases program.len(),
{
    let start = Symbols::initial(labels);
    let after = encode_all(program, start)->Ok_0.1;
    let names = variables(program, labels);
    if program.len() > 0 {
        let shorter = program.drop_last();
        lemma_variable_addresses(shorter, labels);
        let before = encode_all(shorter, start)->Ok_0.1;
        let earlier = variables(shorter, labels);
        match program.last() {
            Statement::A { value } => {
                if !is_literal(value) && !before.addresses.contains_key(value) {
                    assert(!earlier.contains(value));
                    assert(names == earlier.push(value));
                    assert(after == before.with_variable(value));
                    assert forall|k: int| 0 <= k < names.len() implies {
                        let name = #[trigger] names[k];
                        after.addresses.contains_key(name) && after.addresses[name]
                            == FIRST_VARIABLE + k
                    } by {
                        if k < earlier.len() {
                            assert(names[k] == earlier[k]);
                            assert(earlier.contains(earlier[k]));
                        }
                    }
                    assert forall|name: Seq<char>|
                        #![auto]
                        after.addresses.contains_key(name) <==> labels.contains_key(name)
                            || names.contains(name) by {
                        if names.contains(name) {
                            let k = choose|k: int| 0 <= k < names.len() && names[k] == name;
                            if k < earlier.len() {
                                assert(earlier.contains(name));
                            }
                        }
                        if earlier.contains(name) {
                            let k = choose|k: int| 0 <= k < earlier.len() && earlier[k] == name;
                            assert(names[k] == name);
                        }
                        if name == value {
                            assert(names[earlier.len() as int] == value);
                        }
                    }
                    assert forall|k: int| 0 <= k < names.len() implies !labels.contains_key(
                        #[trigger] names[k],
                    ) by {
                        if k < earlier.len() {
                            assert(names[k] == earlier[k]);
                        }
                    }
                    assert(names.no_duplicates()) by {
                        assert forall|a: int, b: int|
                            0 <= a < names.len() && 0 <= b < names.len() && a != b implies names[a]
                            != names[b] by {
                            if a < earlier.len() {
                                assert(earlier.contains(earlier[a]));
                            }
                            if b < earlier.len() {
                                assert(earlier.contains(earlier[b]));
                            }
                        }
                    }
                } else {
                    assert(after == before);
                    assert(names == earlier);
                }
            },
            _ => {
                assert(after == before);
                assert(names == earlier);
            },
        }
    } else {
        assert(after == start);
    }
}

/// A program that is encoded gives one word for each of its address and
/// computation instructions, and each word is sixteen binary digits.
pub proof fn lemma_encode_all_words(program: Seq<Statement>, symbols: Symbols)
    requires
        encode_all(program, symbols) is Ok,
    ensures
        encode_all(program, symbols)->Ok_0.0.len() == instruction_count(program),
        forall|i: int|
            0 <= i < instruction_count(program) ==> is_word(
                #[trigger] encode_all(program, symbols)->Ok_0.0[i],
            ),
    decreases program.len(),
{
    if program.len() > 0 {
        lemma_encode_all_words(program.drop_last(), symbols);
        let before = encode_all(program.drop_last(), symbols)->Ok_0.1;
        lemma_encode_word(program.last(), before);
    }
}

/// The text of a translated program is its words laid end to end, each word
/// sixteen binary digits and after each a line feed: the character at
/// place `17 * i + j` is the digit `j` of the word `i` for `j` below 16, and
/// the line feed for `j` at 16.
pub proof fn lemma_listing_shape(words: Seq<Seq<char>>)
    requires
        forall|i: int| 0 <= i < words.len() ==> is_word(#[trigger] words[i]),
    ensures
        listing(words).len() == 17 * words.len(),
        forall|i: int, j: int|
            0 <= i < words.len() && 0 <= j < 16 ==> #[trigger] listing(words)[17 * i + j]
                == words[i][j],
        forall|i: int| 0 <= i < words.len() ==> #[trigger] listing(words)[17 * i + 16] == '\n',
    decreases words.len(),
{
    if words.len() > 0 {
        let earlier = words.drop_last();
        let n = earlier.len() as int;
        lemma_listing_shape(earlier);
        assert(is_word(words[n]));
        assert forall|i: int, j: int| 0 <= i < words.len() && 0 <= j < 16 implies #[trigger] listing(
            words,
        )[17 * i + j] == words[i][j] by {
            if i < n {
                assert(listing(earlier)[17 * i + j] == earlier[i][j]);
            }
        }
        assert forall|i: int| 0 <= i < words.len() implies #[trigger] listing(words)[17 * i + 16]
            == '\n' by {
            if i < n {
                assert(listing(earlier)[17 * i + 16] == '\n');
            }
        }
    }
}

/// A translation that succeeds gives one line for each address and
/// computation instruction of the source, made of sixteen binary digits and
/// a line feed.
pub proof fn lemma_translation_shape(source: Seq<char>)
    requires
        translation(source) is Ok,
    ensures
        parse_spec(source) is Ok,
        translation(source)->Ok_0.len() == 17 * instruction_count(parse_spec(source)->Ok_0),
        forall|p: int|
            0 <= p < translation(source)->Ok_0.len() ==> {
                let c = #[trigger] translation(source)->Ok_0[p];
                if p % 17 == 16 {
                    c == '\n'
                } else {
                    c == '0' || c == '1'
                }
            },
{
    let program = parse_spec(source)->Ok_0;
    let labels = resolve_labels(program)->Ok_0;
    let start = Symbols::initial(labels);
    let words = encode_all(program, start)->Ok_0.0;
    let output = translation(source)->Ok_0;
    lemma_encode_all_words(program, start);
    lemma_listing_shape(words);
    assert forall|p: int| 0 <= p < output.len() implies {
        let c = #[trigger] output[p];
        if p % 17 == 16 {
            c == '\n'
        } else {
            c == '0' || c == '1'
        }
    } by {
        let i = p / 17;
        let j = p % 17;
        assert(p == 17 * i + j);
        assert(0 <= i < words.len());
        if j == 16 {
            assert(listing(words)[17 * i + 16] == '\n');
        } else {
            assert(listing(words)[17 * i + j] == words[i][j]);
            assert(is_word(words[i]));
        }
    }
}

/// In the table at the end of a translation every predefined name and every
/// label still has the address that it had before the first instruction was
/// encoded.
pub proof fn lemma_labels_fixed(program: Seq<Statement>)
    requires
        resolve_labels(program) is Ok,
        encode_all(program, Symbols::initial(resolve_labels(program)->Ok_0)) is Ok,
    ensures
        resolve_labels(program)->Ok_0.submap_of(
            encode_all(program, Symbols::initial(resolve_labels(program)->Ok_0))->Ok_0.1.addresses,
        ),
{
    lemma_encode_all_keeps_bindings(program, Symbols::initial(resolve_labels(program)->Ok_0));
}

/// Two runs of `translate` on one source agree: both give the same text, or
/// both fail in the same way.
pub proof fn lemma_translate_deterministic(
    source: Seq<char>,
    first: Result<String, AssembleError>,
    second: Result<String, AssembleError>,
)
    requires
        outcome(first) == translation(source),
        outcome(second) == translation(source),
    ensures
        outcome(first) == outcome(second),
        first is Ok <==> second is Ok,
        first is Ok ==> first->Ok_0@ == second->Ok_0@,
        first is Err ==> first->Err_0@ == second->Err_0@,
{
}

} // verus!
