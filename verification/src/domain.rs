//! Domain values: the Shopify owner types that metafield definitions attach to.

use vstd::prelude::*;
use crate::maps::views;
use crate::text::{trim, upper, eq_ignore_case, split_on, join, trim_str, to_ascii_uppercase, str_eq,
    eq_ignore_ascii_case, split_char, join_strings, concat};
use crate::model::{lemma_map_values_push, lemma_take_push};
use crate::text::lemma_trim_idempotent;

verus! {

#[derive(Debug, Clone, Copy, PartialEq, Eq, Hash)]
pub enum OwnerType {
    Product,
    ProductVariant,
    Order,
    Page,
    Shop,
    Collection,
    Customer,
    Blog,
    Article,
    Market,
}

impl OwnerType {
    /// The Shopify name of the owner type.
    pub open spec fn name(self) -> Seq<char> {
        match self {
            OwnerType::Product => "PRODUCT"@,
            OwnerType::ProductVariant => "PRODUCTVARIANT"@,
            OwnerType::Order => "ORDER"@,
            OwnerType::Page => "PAGE"@,
            OwnerType::Shop => "SHOP"@,
            OwnerType::Collection => "COLLECTION"@,
            OwnerType::Customer => "CUSTOMER"@,
            OwnerType::Blog => "BLOG"@,
            OwnerType::Article => "ARTICLE"@,
            OwnerType::Market => "MARKET"@,
        }
    }

    /// The Shopify name of the owner type (`PRODUCT`, `PRODUCTVARIANT`, ...).
    pub fn as_str(&self) -> (r: &'static str)
        ensures
            r@ == self.name(),
    {
        match self {
            OwnerType::Product => "PRODUCT",
            OwnerType::ProductVariant => "PRODUCTVARIANT",
            OwnerType::Order => "ORDER",
            OwnerType::Page => "PAGE",
            OwnerType::Shop => "SHOP",
            OwnerType::Collection => "COLLECTION",
            OwnerType::Customer => "CUSTOMER",
            OwnerType::Blog => "BLOG",
            OwnerType::Article => "ARTICLE",
            OwnerType::Market => "MARKET",
        }
    }

    /// Every owner type, in declaration order.
    pub open spec fn all_spec() -> Seq<OwnerType> {
        seq![
            OwnerType::Product,
            OwnerType::ProductVariant,
            OwnerType::Order,
            OwnerType::Page,
            OwnerType::Shop,
            OwnerType::Collection,
            OwnerType::Customer,
            OwnerType::Blog,
            OwnerType::Article,
            OwnerType::Market,
        ]
    }

    /// Every owner type, in declaration order.
    pub fn all() -> (r: Vec<OwnerType>)
        ensures
            r@ == OwnerType::all_spec(),
    {
        let r = vec![
            OwnerType::Product,
            OwnerType::ProductVariant,
            OwnerType::Order,
            OwnerType::Page,
            OwnerType::Shop,
            OwnerType::Collection,
            OwnerType::Customer,
            OwnerType::Blog,
            OwnerType::Article,
            OwnerType::Market,
        ];
        assert(r@ =~= OwnerType::all_spec());
        r
    }
}

/// The owner type whose Shopify name is exactly `s`.
pub open spec fn owner_type_named(s: Seq<char>) -> Option<OwnerType> {
    if s == "PRODUCT"@ {
        Some(OwnerType::Product)
    } else if s == "PRODUCTVARIANT"@ {
        Some(OwnerType::ProductVariant)
    } else if s == "ORDER"@ {
        Some(OwnerType::Order)
    } else if s == "PAGE"@ {
        Some(OwnerType::Page)
    } else if s == "SHOP"@ {
        Some(OwnerType::Shop)
    } else if s == "COLLECTION"@ {
        Some(OwnerType::Collection)
    } else if s == "CUSTOMER"@ {
        Some(OwnerType::Customer)
    } else if s == "BLOG"@ {
        Some(OwnerType::Blog)
    } else if s == "ARTICLE"@ {
        Some(OwnerType::Article)
    } else if s == "MARKET"@ {
        Some(OwnerType::Market)
    } else {
        None
    }
}

/// The owner type that the text `s` names: trimmed, in any ASCII case.
pub open spec fn owner_type_of(s: Seq<char>) -> Option<OwnerType> {
    owner_type_named(upper(trim(s)))
}

#[derive(Debug, Clone, PartialEq, Eq)]
pub struct ParseOwnerTypeError;

impl ParseOwnerTypeError {
    /// The displayed text of the error.
    pub fn to_string(&self) -> (r: String)
        ensures
            r@ == "invalid owner type"@,
    {
        "invalid owner type".to_string()
    }
}

/// Reads an owner type: trimmed, case-insensitive (`OwnerType::from_str`).
pub fn parse_owner_type(s: &str) -> (r: Result<OwnerType, ParseOwnerTypeError>)
    ensures
        match r {
            Ok(o) => owner_type_of(s@) == Some(o),
            Err(_) => owner_type_of(s@) is None,
        },
{
    let t = trim_str(s);
    let u = to_ascii_uppercase(t.as_str());
    let u = u.as_str();
    if str_eq(u, "PRODUCT") {
        Ok(OwnerType::Product)
    } else if str_eq(u, "PRODUCTVARIANT") {
        Ok(OwnerType::ProductVariant)
    } else if str_eq(u, "ORDER") {
        Ok(OwnerType::Order)
    } else if str_eq(u, "PAGE") {
        Ok(OwnerType::Page)
    } else if str_eq(u, "SHOP") {
        Ok(OwnerType::Shop)
    } else if str_eq(u, "COLLECTION") {
        Ok(OwnerType::Collection)
    } else if str_eq(u, "CUSTOMER") {
        Ok(OwnerType::Customer)
    } else if str_eq(u, "BLOG") {
        Ok(OwnerType::Blog)
    } else if str_eq(u, "ARTICLE") {
        Ok(OwnerType::Article)
    } else if str_eq(u, "MARKET") {
        Ok(OwnerType::Market)
    } else {
        Err(ParseOwnerTypeError)
    }
}

impl std::str::FromStr for OwnerType {
    type Err = ParseOwnerTypeError;

    fn from_str(s: &str) -> (r: Result<Self, Self::Err>)
        ensures
            match r {
                Ok(o) => owner_type_of(s@) == Some(o),
                Err(_) => owner_type_of(s@) is None,
            },
    {
        parse_owner_type(s)
    }
}

#[derive(Debug, Clone, PartialEq, Eq)]
pub struct ParseOwnerTypesError {
    pub invalid: Vec<String>,
}

impl ParseOwnerTypesError {
    /// The displayed text of the error: the invalid parts, comma-separated.
    pub fn to_string(&self) -> (r: String)
        ensures
            r@ == "invalid owner types: "@ + join(views(self.invalid@), ", "@),
    {
        let j = join_strings(&self.invalid, ", ");
        concat("invalid owner types: ", j.as_str())
    }
}

/// The trimmed, non-empty pieces of `ps`, in order.
pub open spec fn nonblank_trimmed(ps: Seq<Seq<char>>) -> Seq<Seq<char>>
    decreases ps.len(),
{
    if ps.len() == 0 {
        ps
    } else if trim(ps.last()).len() == 0 {
        nonblank_trimmed(ps.drop_last())
    } else {
        nonblank_trimmed(ps.drop_last()).push(trim(ps.last()))
    }
}

/// The comma-separated parts of an `--owner-type` value, trimmed, blanks dropped.
pub open spec fn owner_type_parts(input: Seq<char>) -> Seq<Seq<char>> {
    nonblank_trimmed(split_on(trim(input), ','))
}

/// The parts that name no owner type, in order.
pub open spec fn invalid_parts(ps: Seq<Seq<char>>) -> Seq<Seq<char>>
    decreases ps.len(),
{
    if ps.len() == 0 {
        ps
    } else if owner_type_of(ps.last()) is None {
        invalid_parts(ps.drop_last()).push(ps.last())
    } else {
        invalid_parts(ps.drop_last())
    }
}

/// The owner types that the parts name, in order (parts that name none are skipped).
pub open spec fn named_owner_types(ps: Seq<Seq<char>>) -> Seq<OwnerType>
    decreases ps.len(),
{
    if ps.len() == 0 {
        Seq::empty()
    } else {
        match owner_type_of(ps.last()) {
            Some(o) => named_owner_types(ps.drop_last()).push(o),
            None => named_owner_types(ps.drop_last()),
        }
    }
}

/// Parses a `--owner-type` value: `ALL` (any case) for every owner type, otherwise a
/// comma-separated list. Every part that names no owner type is reported.
pub fn parse_owner_types(input: &str) -> (r: Result<Vec<OwnerType>, ParseOwnerTypesError>)
    ensures
        eq_ignore_case(trim(input@), "ALL"@) ==> (r matches Ok(v) && v@ == OwnerType::all_spec()),
        !eq_ignore_case(trim(input@), "ALL"@) ==> {
            let ps = owner_type_parts(input@);
            match r {
                Ok(v) => invalid_parts(ps).len() == 0 && v@ == named_owner_types(ps),
                Err(e) => invalid_parts(ps).len() > 0 && views(e.invalid@) == invalid_parts(ps),
            }
        },
{
    let trimmed = trim_str(input);
    if eq_ignore_ascii_case(trimmed.as_str(), "ALL") {
        return Ok(OwnerType::all());
    }
    let pieces = split_char(trimmed.as_str(), ',');
    let ghost pv = views(pieces@);
    let mut invalid: Vec<String> = Vec::new();
    let mut out: Vec<OwnerType> = Vec::new();
    let mut i: usize = 0;
    while i < pieces.len()
        invariant
            i <= pieces.len(),
            pv == views(pieces@),
            pv == split_on(trimmed@, ','),
            views(invalid@) == invalid_parts(nonblank_trimmed(pv.take(i as int))),
            out@ == named_owner_types(nonblank_trimmed(pv.take(i as int))),
        decreases pieces.len() - i,
    {
        proof {
            lemma_take_push(pv, i as int);
            assert(pv.take(i + 1).drop_last() =~= pv.take(i as int));
            assert(pv[i as int] == pieces@[i as int]@);
        }
        let p = trim_str(pieces[i].as_str());
        if !p.as_str().is_empty() {
            let ghost ps = nonblank_trimmed(pv.take(i as int));
            proof {
                assert(nonblank_trimmed(pv.take(i + 1)) == ps.push(p@));
                assert(ps.push(p@).drop_last() =~= ps);
                lemma_trim_idempotent(pieces@[i as int]@);
            }
            match parse_owner_type(p.as_str()) {
                Ok(o) => {
                    out.push(o);
                },
                Err(_) => {
                    let ghost before = invalid@;
                    invalid.push(p);
                    proof {
                        lemma_map_values_push(before, invalid@.last(), |x: String| x@);
                    }
                },
            }
        } else {
            assert(nonblank_trimmed(pv.take(i + 1)) == nonblank_trimmed(pv.take(i as int)));
        }
        i = i + 1;
    }
    assert(pv.take(pieces.len() as int) =~= pv);
    if invalid.len() > 0 {
        return Err(ParseOwnerTypesError { invalid });
    }
    Ok(out)
}

proof fn lemma_plain_name(s: Seq<char>)
    requires
        s.len() > 0,
        forall|i: int| 0 <= i < s.len() ==> 'A' <= #[trigger] s[i] <= 'Z',
    ensures
        owner_type_of(s) == owner_type_named(s),
{
    assert(trim(s) == s) by {
        assert(!crate::text::is_whitespace(s[0]));
        assert(!crate::text::is_whitespace(s.last()));
    }
    assert(upper(s) =~= s);
}

/// Reading back the name of an owner type gives that owner type.
pub proof fn lemma_owner_type_name_round_trip(o: OwnerType)
    ensures
        owner_type_of(o.name()) == Some(o),
{
    reveal_strlit("PRODUCT");
    reveal_strlit("PRODUCTVARIANT");
    reveal_strlit("ORDER");
    reveal_strlit("PAGE");
    reveal_strlit("SHOP");
    reveal_strlit("COLLECTION");
    reveal_strlit("CUSTOMER");
    reveal_strlit("BLOG");
    reveal_strlit("ARTICLE");
    reveal_strlit("MARKET");
    lemma_plain_name(o.name());
}

} // verus!
