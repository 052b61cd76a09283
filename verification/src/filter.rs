//! Filter builder: construct the filter string that restricts the servers a
//! query returns.
//!
//! A filter is a list of pairs, each written as `\name\value`. The special
//! filters `nor` and `nand` open a group: the pairs that follow are collected
//! until `end` closes the group and writes it as `\nand\N` followed by its
//! `N` pairs.
//!
//! Some filters may or may not work as expected depending on the game they
//! are tried on.

use crate::decimal::{append_decimal, decimal_text};
use vstd::prelude::*;
use vstd::string::StringExecFns;

verus! {

/// The text of a boolean value: `1` for true, `0` for false.
pub open spec fn bool_text(switch: bool) -> Seq<char> {
    if switch {
        seq!['1']
    } else {
        seq!['0']
    }
}

/// The texts of a list of tags, with a comma between each two.
pub open spec fn joined_text(tags: Seq<Seq<char>>) -> Seq<char>
    decreases tags.len(),
{
    if tags.len() == 0 {
        Seq::empty()
    } else if tags.len() == 1 {
        tags[0]
    } else {
        joined_text(tags.drop_last()) + seq![','] + tags.last()
    }
}

/// The text of one pair: a backslash, the name, a backslash, the value.
pub open spec fn pair_text(name: Seq<char>, value: Seq<char>) -> Seq<char> {
    seq!['\\'] + name + seq!['\\'] + value
}

/// The text of a group: its name, then the number of its pairs followed
/// directly by the pairs.
pub open spec fn group_text(name: Seq<char>, count: nat, pairs: Seq<char>) -> Seq<char> {
    pair_text(name, decimal_text(count) + pairs)
}

/// The texts of a list of string slices.
pub open spec fn str_texts(strs: Seq<&str>) -> Seq<Seq<char>> {
    strs.map_values(|s: &str| s@)
}

/// The texts of a list of strings.
pub open spec fn string_texts(strings: Seq<String>) -> Seq<Seq<char>> {
    strings.map_values(|s: String| s@)
}

/// The value of a filter pair.
pub enum FilterPropVal {
    Special(Vec<FilterProp>),
    Boolean(bool),
    Str(String),
    Uint32(u32),
    Tags(Vec<String>),
}

/// One pair of a filter: a name and its value.
pub struct FilterProp {
    pub name: String,
    pub value: FilterPropVal,
}

/// The texts of a list of pairs, one after the other.
pub open spec fn props_text(props: Seq<FilterProp>) -> Seq<char>
    decreases props,
{
    if props.len() == 0 {
        Seq::empty()
    } else {
        props_text(props.drop_last()) + props.last().text()
    }
}

impl FilterPropVal {
    /// The text that the value is written as.
    pub open spec fn text(self) -> Seq<char>
        decreases self,
    {
        match self {
            FilterPropVal::Special(props) => decimal_text(props@.len()) + props_text(props@),
            FilterPropVal::Boolean(switch) => bool_text(switch),
            FilterPropVal::Str(param) => param@,
            FilterPropVal::Uint32(num) => decimal_text(num as nat),
            FilterPropVal::Tags(tags) => joined_text(string_texts(tags@)),
        }
    }
}

impl FilterProp {
    /// The text that the pair is written as.
    pub open spec fn text(self) -> Seq<char>
        decreases self,
    {
        pair_text(self.name@, self.value.text())
    }
}

/// The text of a boolean value as a string slice.
fn bool_str(switch: bool) -> (s: &'static str)
    ensures
        s@ == bool_text(switch),
{
    proof {
        reveal_strlit("1");
        reveal_strlit("0");
    }
    let s = if switch {
        "1"
    } else {
        "0"
    };
    assert(s@ =~= bool_text(switch));
    s
}

/// Join tags with commas.
fn join_tags(tags: &Vec<String>) -> (joined: String)
    ensures
        joined@ == joined_text(string_texts(tags@)),
{
    proof {
        reveal_strlit(",");
    }
    let ghost all = string_texts(tags@);
    let mut joined = String::new();
    let mut i: usize = 0;
    while i < tags.len()
        invariant
            i <= tags@.len(),
            all == string_texts(tags@),
            joined@ == joined_text(all.take(i as int)),
            ","@ == seq![','],
        decreases tags@.len() - i,
    {
        if i > 0 {
            joined.append(",");
        }
        joined.append(tags[i].as_str());
        proof {
            let now = all.take(i + 1);
            assert(now.drop_last() =~= all.take(i as int));
            assert(now.last() == tags@[i as int]@);
            assert(joined@ =~= joined_text(now));
        }
        i = i + 1;
    }
    assert(all.take(i as int) =~= all);
    joined
}

impl FilterPropVal {
    /// The value of a group: a copy of the pairs that were collected for it.
    pub fn from_special(spec: &Vec<FilterProp>) -> (value: FilterPropVal)
        ensures
            value is Special,
            value.text() == decimal_text(spec@.len()) + props_text(spec@),
    {
        FilterPropVal::Special(copy_props(spec))
    }

    /// The value of a list of tags.
    pub fn from_tags(tags: &Vec<&str>) -> (value: FilterPropVal)
        ensures
            value is Tags,
            value.text() == joined_text(str_texts(tags@)),
    {
        let mut fpvtags: Vec<String> = Vec::new();
        let mut i: usize = 0;
        while i < tags.len()
            invariant
                i <= tags@.len(),
                string_texts(fpvtags@) == str_texts(tags@).take(i as int),
            decreases tags@.len() - i,
        {
            let ghost before = fpvtags@;
            let tag = String::from_str(tags[i]);
            fpvtags.push(tag);
            proof {
                assert(string_texts(before.push(tag)) =~= string_texts(before).push(tag@));
                assert(str_texts(tags@).take(i + 1) =~= str_texts(tags@).take(i as int).push(
                    tags@[i as int]@,
                ));
            }
            i = i + 1;
        }
        assert(str_texts(tags@).take(i as int) =~= str_texts(tags@));
        FilterPropVal::Tags(fpvtags)
    }

    /// Write the value out.
    pub fn as_str(&self) -> (s: String)
        ensures
            s@ == self.text(),
        decreases self,
    {
        match self {
            FilterPropVal::Special(filterprops) => {
                // Start with the number of pairs, then the pairs themselves.
                let mut sstr = String::new();
                append_decimal(&mut sstr, filterprops.len() as u64);
                let mut i: usize = 0;
                while i < filterprops.len()
                    invariant
                        i <= filterprops@.len(),
                        *self is Special,
                        self->Special_0 == *filterprops,
                        sstr@ == decimal_text(filterprops@.len()) + props_text(
                            filterprops@.take(i as int),
                        ),
                    decreases filterprops@.len() - i,
                {
                    let piece = filterprops[i].as_str();
                    sstr.append(piece.as_str());
                    proof {
                        let now = filterprops@.take(i + 1);
                        assert(now.drop_last() =~= filterprops@.take(i as int));
                        assert(sstr@ =~= decimal_text(filterprops@.len()) + props_text(now));
                    }
                    i = i + 1;
                }
                assert(filterprops@.take(i as int) =~= filterprops@);
                sstr
            },
            FilterPropVal::Boolean(b) => String::from_str(bool_str(*b)),
            FilterPropVal::Str(s) => s.clone(),
            FilterPropVal::Uint32(i) => {
                let mut sstr = String::new();
                append_decimal(&mut sstr, *i as u64);
                assert(sstr@ =~= decimal_text(*i as nat));
                sstr
            },
            FilterPropVal::Tags(tags) => join_tags(tags),
        }
    }
}

impl Clone for FilterPropVal {
    /// The copy is written exactly as the value it was made from.
    fn clone(&self) -> (copy: FilterPropVal)
        ensures
            copy.text() == self.text(),
            self is Special <==> copy is Special,
        decreases self,
    {
        match self {
            FilterPropVal::Special(props) => FilterPropVal::Special(copy_props(props)),
            FilterPropVal::Boolean(b) => FilterPropVal::Boolean(*b),
            FilterPropVal::Str(s) => FilterPropVal::Str(s.clone()),
            FilterPropVal::Uint32(i) => FilterPropVal::Uint32(*i),
            FilterPropVal::Tags(tags) => {
                let mut copies: Vec<String> = Vec::new();
                let mut i: usize = 0;
                while i < tags.len()
                    invariant
                        i <= tags@.len(),
                        string_texts(copies@) == string_texts(tags@).take(i as int),
                    decreases tags@.len() - i,
                {
                    let ghost before = copies@;
                    let tag = tags[i].clone();
                    copies.push(tag);
                    proof {
                        assert(string_texts(before.push(tag)) =~= string_texts(before).push(tag@));
                        assert(string_texts(tags@).take(i + 1) =~= string_texts(tags@).take(
                            i as int,
                        ).push(tags@[i as int]@));
                    }
                    i = i + 1;
                }
                assert(string_texts(tags@).take(i as int) =~= string_texts(tags@));
                FilterPropVal::Tags(copies)
            },
        }
    }
}

impl FilterProp {
    /// A pair of `name` and `value`.
    pub fn new(name: &str, value: FilterPropVal) -> (prop: FilterProp)
        ensures
            prop.name@ == name@,
            prop.value == value,
    {
        FilterProp { name: String::from_str(name), value: value }
    }

    /// Write the pair out.
    pub fn as_str(&self) -> (s: String)
        ensures
            s@ == self.text(),
        decreases self,
    {
        proof {
            reveal_strlit("\\");
        }
        let mut s = String::from_str("\\");
        s.append(self.name.as_str());
        s.append("\\");
        let value = self.value.as_str();
        s.append(value.as_str());
        assert(s@ =~= self.text());
        s
    }
}

impl Clone for FilterProp {
    /// The copy is written exactly as the value it was made from.
    fn clone(&self) -> (copy: FilterProp)
        ensures
            copy.text() == self.text(),
        decreases self,
    {
        FilterProp { name: self.name.clone(), value: self.value.clone() }
    }
}

/// Copy a list of pairs.
fn copy_props(props: &Vec<FilterProp>) -> (copies: Vec<FilterProp>)
    ensures
        copies@.len() == props@.len(),
        props_text(copies@) == props_text(props@),
    decreases props,
{
    let mut copies: Vec<FilterProp> = Vec::new();
    let mut i: usize = 0;
    while i < props.len()
        invariant
            i <= props@.len(),
            copies@.len() == i,
            props_text(copies@) == props_text(props@.take(i as int)),
        decreases props@.len() - i,
    {
        let ghost before = copies@;
        let copy = props[i].clone();
        copies.push(copy);
        proof {
            let now = props@.take(i + 1);
            assert(now.drop_last() =~= props@.take(i as int));
            assert(copies@.drop_last() =~= before);
        }
        i = i + 1;
    }
    assert(props@.take(i as int) =~= props@);
    copies
}

/// What a filter under construction consists of.
pub struct FilterView {
    /// The pairs written so far: what `as_string` gives.
    pub text: Seq<char>,
    /// Whether a group is open.
    pub in_special: bool,
    /// The name of the group that was opened last and has not been closed.
    pub special_name: Seq<char>,
    /// The number of pairs collected for the group.
    pub special_count: nat,
    /// The pairs collected for the group, one after the other.
    pub special_text: Seq<char>,
}

impl FilterView {
    /// The filter that nothing has been added to.
    pub open spec fn empty() -> FilterView {
        FilterView {
            text: Seq::empty(),
            in_special: false,
            special_name: Seq::empty(),
            special_count: 0,
            special_text: Seq::empty(),
        }
    }

    /// Add one pair: to the open group where there is one, to the filter
    /// itself otherwise.
    pub open spec fn push(self, pair: Seq<char>) -> FilterView {
        if self.in_special {
            FilterView {
                special_count: self.special_count + 1,
                special_text: self.special_text + pair,
                ..self
            }
        } else {
            FilterView { text: self.text + pair, ..self }
        }
    }

    /// Add a pair whose value is a list of tags. An empty list adds nothing.
    pub open spec fn push_tags(self, name: Seq<char>, tags: Seq<Seq<char>>) -> FilterView {
        if tags.len() > 0 {
            self.push(pair_text(name, joined_text(tags)))
        } else {
            self
        }
    }

    /// Add pairs in their order.
    pub open spec fn push_all(self, pairs: Seq<Seq<char>>) -> FilterView
        decreases pairs.len(),
    {
        if pairs.len() == 0 {
            self
        } else {
            self.push_all(pairs.drop_last()).push(pairs.last())
        }
    }

    /// Open a group named `name`. What an open group had collected is
    /// dropped.
    pub open spec fn special_start(self, name: Seq<char>) -> FilterView {
        FilterView {
            in_special: true,
            special_name: name,
            special_count: 0,
            special_text: Seq::empty(),
            ..self
        }
    }

    /// Close the group: write it to the filter.
    pub open spec fn end(self) -> FilterView {
        FilterView {
            text: self.text + group_text(
                self.special_name,
                self.special_count,
                self.special_text,
            ),
            in_special: false,
            special_name: Seq::empty(),
            ..self
        }
    }
}

/// The texts of a list, one after the other.
pub open spec fn concat_texts(items: Seq<Seq<char>>) -> Seq<char>
    decreases items.len(),
{
    if items.len() == 0 {
        Seq::empty()
    } else {
        concat_texts(items.drop_last()) + items.last()
    }
}

/// Filter builder: construct the filter to restrict the servers returned.
pub struct Filter {
    filter_lst: Vec<FilterProp>,
    in_special: bool,
    spec_vec: Vec<FilterProp>,
    special_name: String,
}

impl View for Filter {
    type V = FilterView;

    closed spec fn view(&self) -> FilterView {
        FilterView {
            text: props_text(self.filter_lst@),
            in_special: self.in_special,
            special_name: self.special_name@,
            special_count: self.spec_vec@.len(),
            special_text: props_text(self.spec_vec@),
        }
    }
}

impl Filter {
    /// Returns a string representing the filters. Replaced by `as_string`,
    /// which does the same under a better name.
    pub fn as_str(&self) -> (s: String)
        ensures
            s@ == self@.text,
    {
        self.as_string()
    }

    /// Returns a string representing the filters: every pair written so far,
    /// in the order in which it was added. The pairs of a group that has not
    /// been closed are no part of it.
    pub fn as_string(&self) -> (s: String)
        ensures
            s@ == self@.text,
    {
        let mut sstr = String::new();
        let mut i: usize = 0;
        while i < self.filter_lst.len()
            invariant
                i <= self.filter_lst@.len(),
                sstr@ == props_text(self.filter_lst@.take(i as int)),
            decreases self.filter_lst@.len() - i,
        {
            let piece = self.filter_lst[i].as_str();
            sstr.append(piece.as_str());
            proof {
                let now = self.filter_lst@.take(i + 1);
                assert(now.drop_last() =~= self.filter_lst@.take(i as int));
            }
            i = i + 1;
        }
        assert(self.filter_lst@.take(i as int) =~= self.filter_lst@);
        sstr
    }

    /// Returns a new filter, with nothing in it and no group open.
    pub fn new() -> (filter: Filter)
        ensures
            filter@ == FilterView::empty(),
    {
        Filter {
            filter_lst: Vec::new(),
            in_special: false,
            spec_vec: Vec::new(),
            special_name: String::new(),
        }
    }

    fn push(self, name: &str, value: FilterPropVal) -> (filter: Filter)
        ensures
            filter@ == self@.push(pair_text(name@, value.text())),
    {
        let mut filter = self;
        let prop = FilterProp::new(name, value);
        assert(prop.text() == pair_text(name@, value.text()));
        if filter.in_special {
            let ghost before = filter.spec_vec@;
            filter.spec_vec.push(prop);
            assert(filter.spec_vec@.drop_last() =~= before);
            assert(props_text(filter.spec_vec@) == props_text(before) + prop.text());
        } else {
            let ghost before = filter.filter_lst@;
            filter.filter_lst.push(prop);
            assert(filter.filter_lst@.drop_last() =~= before);
            assert(props_text(filter.filter_lst@) == props_text(before) + prop.text());
        }
        filter
    }

    // Generic filter: Boolean
    fn boolean(self, name: &str, switch: bool) -> (filter: Filter)
        ensures
            filter@ == self@.push(pair_text(name@, bool_text(switch))),
    {
        self.push(name, FilterPropVal::Boolean(switch))
    }

    // Generic filter: String
    fn string(self, name: &str, param: &str) -> (filter: Filter)
        ensures
            filter@ == self@.push(pair_text(name@, param@)),
    {
        self.push(name, FilterPropVal::Str(String::from_str(param)))
    }

    // Generic filter: Unsigned integer of 32 bits
    fn uint32(self, name: &str, num: u32) -> (filter: Filter)
        ensures
            filter@ == self@.push(pair_text(name@, decimal_text(num as nat))),
    {
        self.push(name, FilterPropVal::Uint32(num))
    }

    // Generic filter: Vector of strings
    fn vecstr(self, name: &str, tags: &Vec<&str>) -> (filter: Filter)
        ensures
            filter@ == self@.push_tags(name@, str_texts(tags@)),
    {
        if tags.len() > 0 {
            self.push(name, FilterPropVal::from_tags(tags))
        } else {
            self
        }
    }

    // Generic filter: Special (start)
    fn special_start(self, name: &str) -> (filter: Filter)
        ensures
            filter@ == self@.special_start(name@),
    {
        let mut filter = self;
        filter.spec_vec.clear();
        filter.in_special = true;
        filter.special_name = String::from_str(name);
        filter
    }

    /// A special filter, specifies that servers matching any of the
    /// following \[x\] conditions should not be returned. Close it with
    /// `end`.
    pub fn nor(self) -> (filter: Filter)
        ensures
            filter@ == self@.special_start("nor"@),
    {
        self.special_start("nor")
    }

    /// A special filter, specifies that servers matching all of the
    /// following \[x\] conditions should not be returned. Close it with
    /// `end`.
    pub fn nand(self) -> (filter: Filter)
        ensures
            filter@ == self@.special_start("nand"@),
    {
        self.special_start("nand")
    }

    /// End the special filter (nor, nand): the group is written as its name
    /// and the number of the pairs collected since it was opened, followed
    /// by those pairs. Use this method after each nor/nand.
    pub fn end(self) -> (filter: Filter)
        ensures
            filter@ == self@.end(),
    {
        let mut filter = self;
        let value = FilterPropVal::from_special(&filter.spec_vec);
        let prop = FilterProp::new(filter.special_name.as_str(), value);
        let ghost before = filter.filter_lst@;
        filter.filter_lst.push(prop);
        assert(filter.filter_lst@.drop_last() =~= before);
        assert(props_text(filter.filter_lst@) == props_text(before) + prop.text());
        assert(prop.text() == group_text(
            self@.special_name,
            self@.special_count,
            self@.special_text,
        ));
        filter.in_special = false;
        filter.special_name = String::new();
        filter
    }

    /// Filters if the servers running dedicated
    pub fn dedicated(self, is_dedicated: bool) -> (filter: Filter)
        ensures
            filter@ == self@.push(pair_text("dedicated"@, bool_text(is_dedicated))),
    {
        self.boolean("dedicated", is_dedicated)
    }

    /// Servers using anti-cheat technology (VAC, but potentially others as
    /// well)
    pub fn secure(self, hasac: bool) -> (filter: Filter)
        ensures
            filter@ == self@.push(pair_text("secure"@, bool_text(hasac))),
    {
        self.boolean("secure", hasac)
    }

    /// Servers running the specified modification (ex: cstrike)
    pub fn gamedir(self, modg: &str) -> (filter: Filter)
        ensures
            filter@ == self@.push(pair_text("gamedir"@, modg@)),
    {
        self.string("gamedir", modg)
    }

    /// Servers running the specified map (ex: cs_italy)
    pub fn map(self, mapn: &str) -> (filter: Filter)
        ensures
            filter@ == self@.push(pair_text("map"@, mapn@)),
    {
        self.string("map", mapn)
    }

    /// Servers running on a Linux platform
    pub fn linux(self, runslinux: bool) -> (filter: Filter)
        ensures
            filter@ == self@.push(pair_text("linux"@, bool_text(runslinux))),
    {
        self.boolean("linux", runslinux)
    }

    /// Servers that are not password protected
    pub fn password(self, protected: bool) -> (filter: Filter)
        ensures
            filter@ == self@.push(pair_text("password"@, bool_text(protected))),
    {
        self.boolean("password", protected)
    }

    /// Servers that are full. The pair is written with the opposite value:
    /// `\full\1` asks for servers that are not full.
    pub fn full(self, is_full: bool) -> (filter: Filter)
        ensures
            filter@ == self@.push(pair_text("full"@, bool_text(!is_full))),
    {
        self.boolean("full", !is_full)
    }

    /// Servers that are spectator proxies
    pub fn proxy(self, specprox: bool) -> (filter: Filter)
        ensures
            filter@ == self@.push(pair_text("proxy"@, bool_text(specprox))),
    {
        self.boolean("proxy", specprox)
    }

    /// Servers that are running game \[appid\]
    pub fn appid(self, appid: u32) -> (filter: Filter)
        ensures
            filter@ == self@.push(pair_text("appid"@, decimal_text(appid as nat))),
    {
        self.uint32("appid", appid)
    }

    /// Servers that are NOT running game \[appid\]
    pub fn napp(self, appid: u32) -> (filter: Filter)
        ensures
            filter@ == self@.push(pair_text("napp"@, decimal_text(appid as nat))),
    {
        self.uint32("napp", appid)
    }

    /// Servers that are empty: `is_empty = true`, written as `\noplayers\1`.
    /// Servers that are not empty: `is_empty = false`, written as
    /// `\empty\1`.
    pub fn empty(self, is_empty: bool) -> (filter: Filter)
        ensures
            is_empty ==> filter@ == self@.push(pair_text("noplayers"@, bool_text(true))),
            !is_empty ==> filter@ == self@.push(pair_text("empty"@, bool_text(true))),
    {
        if is_empty {
            self.boolean("noplayers", true)
        } else {
            self.boolean("empty", true)
        }
    }

    /// Servers that are whitelisted
    pub fn whitelisted(self, white: bool) -> (filter: Filter)
        ensures
            filter@ == self@.push(pair_text("white"@, bool_text(white))),
    {
        self.boolean("white", white)
    }

    /// Servers with all of the given tag(s) in sv_tags. An empty list adds
    /// nothing.
    pub fn gametype(self, tags: &Vec<&str>) -> (filter: Filter)
        ensures
            filter@ == self@.push_tags("gametype"@, str_texts(tags@)),
    {
        self.vecstr("gametype", tags)
    }

    /// Servers with all of the given tag(s) in their 'hidden' tags (L4D2).
    /// An empty list adds nothing.
    pub fn gamedata(self, tags: &Vec<&str>) -> (filter: Filter)
        ensures
            filter@ == self@.push_tags("gamedata"@, str_texts(tags@)),
    {
        self.vecstr("gamedata", tags)
    }

    /// Servers with any of the given tag(s) in their 'hidden' tags (L4D2).
    /// An empty list adds nothing.
    pub fn gamedataor(self, tags: &Vec<&str>) -> (filter: Filter)
        ensures
            filter@ == self@.push_tags("gamedataor"@, str_texts(tags@)),
    {
        self.vecstr("gamedataor", tags)
    }

    /// Servers with their hostname matching \[hostname\] (can use * as a
    /// wildcard)
    pub fn name_match(self, hostname: &str) -> (filter: Filter)
        ensures
            filter@ == self@.push(pair_text("name_match"@, hostname@)),
    {
        self.string("name_match", hostname)
    }

    /// Servers running version \[version\] (can use * as a wildcard)
    pub fn version_match(self, ver: &str) -> (filter: Filter)
        ensures
            filter@ == self@.push(pair_text("version_match"@, ver@)),
    {
        self.string("version_match", ver)
    }

    /// Return only one server for each unique IP address matched
    pub fn collapse_addr_hash(self, one_server: bool) -> (filter: Filter)
        ensures
            filter@ == self@.push(pair_text("collapse_addr_hash"@, bool_text(one_server))),
    {
        self.boolean("collapse_addr_hash", one_server)
    }

    /// Return only servers on the specified IP address (port supported and
    /// optional)
    pub fn gameaddr(self, ipaddr: &str) -> (filter: Filter)
        ensures
            filter@ == self@.push(pair_text("gameaddr"@, ipaddr@)),
    {
        self.string("gameaddr", ipaddr)
    }
}

/// Pairs that are added while no group is open are written in the order in
/// which they were added, after what was written before, and change nothing
/// else.
pub proof fn lemma_pairs_append_in_order(filter: FilterView, pairs: Seq<Seq<char>>)
    requires
        !filter.in_special,
    ensures
        filter.push_all(pairs) == (FilterView {
            text: filter.text + concat_texts(pairs),
            ..filter
        }),
    decreases pairs.len(),
{
    if pairs.len() == 0 {
        assert(filter.text + concat_texts(pairs) =~= filter.text);
    } else {
        lemma_pairs_append_in_order(filter, pairs.drop_last());
        assert(filter.text + concat_texts(pairs.drop_last()) + pairs.last() =~= filter.text
            + concat_texts(pairs));
    }
}

/// Pairs that are added while a group is open are collected for the group,
/// in their order, and counted; the filter's own text stays as it was.
pub proof fn lemma_pairs_collect_in_group(filter: FilterView, pairs: Seq<Seq<char>>)
    requires
        filter.in_special,
    ensures
        filter.push_all(pairs) == (FilterView {
            special_count: filter.special_count + pairs.len(),
            special_text: filter.special_text + concat_texts(pairs),
            ..filter
        }),
    decreases pairs.len(),
{
    if pairs.len() == 0 {
        assert(filter.special_text + concat_texts(pairs) =~= filter.special_text);
    } else {
        lemma_pairs_collect_in_group(filter, pairs.drop_last());
        assert(filter.special_text + concat_texts(pairs.drop_last()) + pairs.last()
            =~= filter.special_text + concat_texts(pairs));
    }
}

/// A group that is opened, given some pairs and closed is written after what
/// the filter held before, as its name, the exact number of those pairs, and
/// the pairs in their order. After it no group is open.
pub proof fn lemma_group_counts_its_pairs(
    filter: FilterView,
    name: Seq<char>,
    pairs: Seq<Seq<char>>,
)
    ensures
        filter.special_start(name).push_all(pairs).end().text == filter.text + group_text(
            name,
            pairs.len(),
            concat_texts(pairs),
        ),
        !filter.special_start(name).push_all(pairs).end().in_special,
{
    let opened = filter.special_start(name);
    lemma_pairs_collect_in_group(opened, pairs);
    assert(opened.special_text + concat_texts(pairs) =~= concat_texts(pairs));
}

} // verus!
