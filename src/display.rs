//! Records written for people: one field per line, not meant to be read
//! back.
use crate::flags::Flags;
use crate::named::{names_of, Named};
use crate::number::{decimal_text, push_decimal, push_signed, signed_text};
use crate::record::{Type, TypeModel};
use crate::util::{fmt_slice, lemma_concat_assoc, slice_text};
use crate::xml::{opt_decimal, opt_signed};
use vstd::prelude::*;

verus! {

/// A switch written for people.
pub open spec fn bool_text(b: bool) -> Seq<char> {
    if b {
        "true"@
    } else {
        "false"@
    }
}

/// The switches written for people, all six by name.
pub open spec fn flags_text(f: Flags) -> Seq<char> {
    "[ count_in_cargo = "@ + bool_text(f.count_in_cargo) + ", count_in_hoarder = "@ + bool_text(
        f.count_in_hoarder,
    ) + ", count_in_map = "@ + bool_text(f.count_in_map) + ", count_in_player = "@ + bool_text(
        f.count_in_player,
    ) + ", crafted = "@ + bool_text(f.crafted) + ", deloot = "@ + bool_text(f.deloot) + " ]"@
}

/// A line for an optional field: its label and text where present, and
/// nothing otherwise.
pub open spec fn optional_line(label: Seq<char>, text: Option<Seq<char>>) -> Seq<char> {
    match text {
        Some(t) => label + t,
        None => Seq::empty(),
    }
}

/// A line for an optional list of names.
pub open spec fn optional_list(label: Seq<char>, names: Option<Seq<Seq<char>>>) -> Seq<char> {
    match names {
        Some(n) => slice_text(label, n),
        None => Seq::empty(),
    }
}

/// A record written for people: each present field on a line of its own,
/// label first, in the fixed order.
pub open spec fn type_text(t: TypeModel) -> Seq<char> {
    "name    :\t"@ + t.name + optional_line(
        "\nnominal :\t"@,
        opt_decimal(
            match t.nominal {
                Some(v) => Some(v as nat),
                None => None,
            },
        ),
    ) + "\nlifetime:\t"@ + decimal_text(t.lifetime as nat) + optional_line(
        "\nrestock :\t"@,
        opt_decimal(
            match t.restock {
                Some(v) => Some(v as nat),
                None => None,
            },
        ),
    ) + "\nmin     :\t"@ + decimal_text(t.min as nat) + optional_line(
        "\nquantmin:\t"@,
        opt_signed(t.quantmin),
    ) + "\nquantmax:\t"@ + signed_text(t.quantmax as int) + optional_line(
        "\ncost    :\t"@,
        opt_decimal(
            match t.cost {
                Some(v) => Some(v as nat),
                None => None,
            },
        ),
    ) + "\nflags   :\t"@ + flags_text(t.flags) + optional_line("\ncategory:\t"@, t.category)
        + optional_list("\nusages  :\t"@, t.usages) + optional_list("\nvalues  :\t"@, t.values)
}

/// Appends `piece` and keeps `acc` as what was appended since `start`.
fn push_piece(out: &mut String, piece: &str, Ghost(start): Ghost<Seq<char>>, Ghost(acc): Ghost<Seq<char>>)
    requires
        old(out)@ == start + acc,
    ensures
        final(out)@ == start + (acc + piece@),
{
    out.append(piece);
    proof {
        lemma_concat_assoc(start, acc, piece@);
    }
}

impl Flags {
    /// The switches written for people.
    pub fn to_string(&self) -> (r: String)
        ensures
            r@ == flags_text(*self),
    {
        let mut out = String::new();
        let ghost e = Seq::<char>::empty();
        out.append("[ count_in_cargo = ");
        let ghost mut acc = "[ count_in_cargo = "@;
        proof {
            assert(out@ =~= e + acc);
        }
        push_piece(&mut out, if self.count_in_cargo { "true" } else { "false" }, Ghost(e), Ghost(acc));
        proof {
            acc = acc + bool_text(self.count_in_cargo);
        }
        push_piece(&mut out, ", count_in_hoarder = ", Ghost(e), Ghost(acc));
        proof {
            acc = acc + ", count_in_hoarder = "@;
        }
        push_piece(&mut out, if self.count_in_hoarder { "true" } else { "false" }, Ghost(e), Ghost(acc));
        proof {
            acc = acc + bool_text(self.count_in_hoarder);
        }
        push_piece(&mut out, ", count_in_map = ", Ghost(e), Ghost(acc));
        proof {
            acc = acc + ", count_in_map = "@;
        }
        push_piece(&mut out, if self.count_in_map { "true" } else { "false" }, Ghost(e), Ghost(acc));
        proof {
            acc = acc + bool_text(self.count_in_map);
        }
        push_piece(&mut out, ", count_in_player = ", Ghost(e), Ghost(acc));
        proof {
            acc = acc + ", count_in_player = "@;
        }
        push_piece(&mut out, if self.count_in_player { "true" } else { "false" }, Ghost(e), Ghost(acc));
        proof {
            acc = acc + bool_text(self.count_in_player);
        }
        push_piece(&mut out, ", crafted = ", Ghost(e), Ghost(acc));
        proof {
            acc = acc + ", crafted = "@;
        }
        push_piece(&mut out, if self.crafted { "true" } else { "false" }, Ghost(e), Ghost(acc));
        proof {
            acc = acc + bool_text(self.crafted);
        }
        push_piece(&mut out, ", deloot = ", Ghost(e), Ghost(acc));
        proof {
            acc = acc + ", deloot = "@;
        }
        push_piece(&mut out, if self.deloot { "true" } else { "false" }, Ghost(e), Ghost(acc));
        proof {
            acc = acc + bool_text(self.deloot);
        }
        push_piece(&mut out, " ]", Ghost(e), Ghost(acc));
        proof {
            acc = acc + " ]"@;
            assert(acc == flags_text(*self));
            assert(out@ =~= acc);
        }
        out
    }
}

impl Named {
    /// The name written for people: the name itself.
    pub fn to_string(&self) -> (r: String)
        ensures
            r@ == self@,
    {
        self.name().to_owned()
    }
}

fn push_optional_unsigned_line(out: &mut String, label: &str, v: Option<u64>)
    ensures
        final(out)@ == old(out)@ + optional_line(
            label@,
            opt_decimal(
                match v {
                    Some(n) => Some(n as nat),
                    None => None,
                },
            ),
        ),
{
    match v {
        Some(n) => {
            out.append(label);
            push_decimal(out, n);
            proof {
                assert(out@ =~= old(out)@ + (label@ + decimal_text(n as nat)));
            }
        },
        None => {
            proof {
                assert(out@ =~= old(out)@ + Seq::<char>::empty());
            }
        },
    }
}

fn push_optional_signed_line(out: &mut String, label: &str, v: Option<i64>)
    ensures
        final(out)@ == old(out)@ + optional_line(label@, opt_signed(v)),
{
    match v {
        Some(n) => {
            out.append(label);
            push_signed(out, n);
            proof {
                assert(out@ =~= old(out)@ + (label@ + signed_text(n as int)));
            }
        },
        None => {
            proof {
                assert(out@ =~= old(out)@ + Seq::<char>::empty());
            }
        },
    }
}

fn push_optional_name_line(out: &mut String, label: &str, v: Option<&Named>)
    ensures
        final(out)@ == old(out)@ + optional_line(
            label@,
            match v {
                Some(n) => Some(n@),
                None => None,
            },
        ),
{
    match v {
        Some(n) => {
            out.append(label);
            out.append(n.name());
            proof {
                assert(out@ =~= old(out)@ + (label@ + n@));
            }
        },
        None => {
            proof {
                assert(out@ =~= old(out)@ + Seq::<char>::empty());
            }
        },
    }
}

fn push_optional_list(out: &mut String, label: &str, v: Option<&[Named]>)
    ensures
        final(out)@ == old(out)@ + optional_list(
            label@,
            match v {
                Some(items) => Some(names_of(items@)),
                None => None,
            },
        ),
{
    match v {
        Some(items) => fmt_slice(out, label, items),
        None => {
            proof {
                assert(out@ =~= old(out)@ + Seq::<char>::empty());
            }
        },
    }
}

impl Type {
    /// This record written for people, one field per line.
    #[verifier::rlimit(100)]
    pub fn to_string(&self) -> (r: String)
        ensures
            r@ == type_text(self@),
    {
        let ghost e = Seq::<char>::empty();
        let mut out = String::new();
        out.append("name    :\t");
        out.append(self.get_name());
        let ghost mut acc = "name    :\t"@ + self@.name;
        proof {
            assert(out@ =~= e + acc);
        }
        let nominal = match self.nominal() {
            Some(v) => Some(v as u64),
            None => None,
        };
        push_optional_unsigned_line(&mut out, "\nnominal :\t", nominal);
        proof {
            let piece = optional_line(
                "\nnominal :\t"@,
                opt_decimal(
                    match nominal {
                        Some(n) => Some(n as nat),
                        None => None,
                    },
                ),
            );
            lemma_concat_assoc(e, acc, piece);
            acc = acc + piece;
        }
        push_piece(&mut out, "\nlifetime:\t", Ghost(e), Ghost(acc));
        proof {
            acc = acc + "\nlifetime:\t"@;
        }
        push_decimal(&mut out, self.lifetime() as u64);
        proof {
            lemma_concat_assoc(e, acc, decimal_text(self@.lifetime as nat));
            acc = acc + decimal_text(self@.lifetime as nat);
        }
        let restock = match self.restock() {
            Some(v) => Some(v as u64),
            None => None,
        };
        push_optional_unsigned_line(&mut out, "\nrestock :\t", restock);
        proof {
            let piece = optional_line(
                "\nrestock :\t"@,
                opt_decimal(
                    match restock {
                        Some(n) => Some(n as nat),
                        None => None,
                    },
                ),
            );
            lemma_concat_assoc(e, acc, piece);
            acc = acc + piece;
        }
        push_piece(&mut out, "\nmin     :\t", Ghost(e), Ghost(acc));
        proof {
            acc = acc + "\nmin     :\t"@;
        }
        push_decimal(&mut out, self.min() as u64);
        proof {
            lemma_concat_assoc(e, acc, decimal_text(self@.min as nat));
            acc = acc + decimal_text(self@.min as nat);
        }
        push_optional_signed_line(&mut out, "\nquantmin:\t", self.quantmin());
        proof {
            let piece = optional_line("\nquantmin:\t"@, opt_signed(self@.quantmin));
            lemma_concat_assoc(e, acc, piece);
            acc = acc + piece;
        }
        push_piece(&mut out, "\nquantmax:\t", Ghost(e), Ghost(acc));
        proof {
            acc = acc + "\nquantmax:\t"@;
        }
        push_signed(&mut out, self.quantmax());
        proof {
            lemma_concat_assoc(e, acc, signed_text(self@.quantmax as int));
            acc = acc + signed_text(self@.quantmax as int);
        }
        let cost = match self.cost() {
            Some(v) => Some(v as u64),
            None => None,
        };
        push_optional_unsigned_line(&mut out, "\ncost    :\t", cost);
        proof {
            let piece = optional_line(
                "\ncost    :\t"@,
                opt_decimal(
                    match cost {
                        Some(n) => Some(n as nat),
                        None => None,
                    },
                ),
            );
            lemma_concat_assoc(e, acc, piece);
            acc = acc + piece;
        }
        push_piece(&mut out, "\nflags   :\t", Ghost(e), Ghost(acc));
        proof {
            acc = acc + "\nflags   :\t"@;
        }
        let flags = self.flags().to_string();
        push_piece(&mut out, flags.as_str(), Ghost(e), Ghost(acc));
        proof {
            acc = acc + flags_text(self@.flags);
        }
        let category = self.category();
        push_optional_name_line(&mut out, "\ncategory:\t", category);
        proof {
            let piece = optional_line(
                "\ncategory:\t"@,
                match category {
                    Some(n) => Some(n@),
                    None => None,
                },
            );
            lemma_concat_assoc(e, acc, piece);
            acc = acc + piece;
        }
        let usages = self.usages();
        push_optional_list(&mut out, "\nusages  :\t", usages);
        proof {
            let piece = optional_list(
                "\nusages  :\t"@,
                match usages {
                    Some(items) => Some(names_of(items@)),
                    None => None,
                },
            );
            lemma_concat_assoc(e, acc, piece);
            acc = acc + piece;
        }
        let values = self.values();
        push_optional_list(&mut out, "\nvalues  :\t", values);
        proof {
            let piece = optional_list(
                "\nvalues  :\t"@,
                match values {
                    Some(items) => Some(names_of(items@)),
                    None => None,
                },
            );
            lemma_concat_assoc(e, acc, piece);
            acc = acc + piece;
            assert(acc == type_text(self@));
            assert(out@ =~= acc);
        }
        out
    }
}

} // verus!
