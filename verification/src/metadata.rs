use crate::date::{date_of, parse_date, PostDate};
use crate::frontmatter::Frontmatter;
use vstd::prelude::*;

verus! {

/// What a post says of itself in its metadata block.
#[derive(Clone, Debug, PartialEq, Eq)]
pub struct BlogMetadata {
    pub title: String,
    pub author: String,
    /// The date as the post writes it.
    pub date: String,
    /// The date that `date` writes, by which posts are ordered.
    pub parsed_date: Option<PostDate>,
}

/// Mathematical value of a [`BlogMetadata`].
pub ghost struct BlogMetadataView {
    pub title: Seq<char>,
    pub author: Seq<char>,
    pub date: Seq<char>,
    pub parsed_date: Option<PostDate>,
}

impl View for BlogMetadata {
    type V = BlogMetadataView;

    open spec fn view(&self) -> BlogMetadataView {
        BlogMetadataView {
            title: self.title@,
            author: self.author@,
            date: self.date@,
            parsed_date: self.parsed_date,
        }
    }
}

/// The value of `key`, or the empty text where it has none.
pub open spec fn value_or_empty(map: Map<Seq<char>, Seq<char>>, key: Seq<char>) -> Seq<char> {
    if map.contains_key(key) {
        map[key]
    } else {
        Seq::empty()
    }
}

/// The metadata that a mapping of keys to values describes.
pub open spec fn metadata_of(map: Map<Seq<char>, Seq<char>>) -> BlogMetadataView {
    let date = value_or_empty(map, "date"@);
    BlogMetadataView {
        title: value_or_empty(map, "title"@),
        author: value_or_empty(map, "author"@),
        date,
        parsed_date: date_of(date),
    }
}

/// The metadata of a post without a metadata block.
pub open spec fn empty_metadata() -> BlogMetadataView {
    BlogMetadataView {
        title: Seq::empty(),
        author: Seq::empty(),
        date: Seq::empty(),
        parsed_date: None,
    }
}

/// A mapping without keys describes the empty metadata.
pub proof fn lemma_metadata_of_empty()
    ensures
        metadata_of(Map::empty()) == empty_metadata(),
{
}

fn value_of(frontmatter: &Frontmatter, key: &str) -> (value: String)
    ensures
        value@ == value_or_empty(frontmatter@, key@),
{
    match frontmatter.get(key) {
        Some(v) => v.clone(),
        None => String::new(),
    }
}

impl BlogMetadata {
    /// The metadata that a mapping of keys to values describes: title,
    /// author and date are the values of the keys of these names, empty
    /// where the key is missing.
    pub fn new_from_frontmatter(frontmatter: &Frontmatter) -> (meta: Self)
        ensures
            meta@ == metadata_of(frontmatter@),
    {
        let date = value_of(frontmatter, "date");
        let parsed_date = parse_date(date.as_str());
        BlogMetadata {
            title: value_of(frontmatter, "title"),
            author: value_of(frontmatter, "author"),
            date,
            parsed_date,
        }
    }
}

impl Default for BlogMetadata {
    fn default() -> (meta: Self)
        ensures
            meta@ == empty_metadata(),
    {
        BlogMetadata {
            title: String::new(),
            author: String::new(),
            date: String::new(),
            parsed_date: None,
        }
    }
}

} // verus!
