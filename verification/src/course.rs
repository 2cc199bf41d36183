//! Golf course layouts: an algorithmic standard layout and the par
//! tables of a few famous courses, each as a hole-to-par map ready to
//! hand to scorecard construction.

use vstd::prelude::*;
use std::collections::BTreeMap;
use vstd::string::StringExecFns;

verus! {

/// The par of hole `h` on the algorithmically generated standard
/// course: 5 where the hole number divides by 3, then 4, then 3, in a
/// repeating pattern.
pub open spec fn standard_par(h: u8) -> u8 {
    if h % 3 == 0 {
        5
    } else if h % 3 == 1 {
        4
    } else {
        3
    }
}

/// The authentic Augusta National par for hole `h`.
pub open spec fn augusta_national_par(h: u8) -> u8 {
    if h == 2 || h == 8 || h == 13 || h == 15 {
        5
    } else if h == 4 || h == 6 || h == 12 || h == 16 {
        3
    } else {
        4
    }
}

/// The Pebble Beach par for hole `h`.
pub open spec fn pebble_beach_par(h: u8) -> u8 {
    if h == 2 || h == 6 || h == 14 || h == 18 {
        5
    } else if h == 4 || h == 7 || h == 12 || h == 16 {
        3
    } else {
        4
    }
}

/// The St Andrews (Old Course) par for hole `h`.
pub open spec fn st_andrews_par(h: u8) -> u8 {
    if h == 4 || h == 9 || h == 15 {
        5
    } else if h == 5 || h == 8 || h == 12 || h == 16 {
        3
    } else {
        4
    }
}

/// The Torrey Pines North par for hole `h`.
pub open spec fn torrey_pines_north_par(h: u8) -> u8 {
    if h == 5 || h == 9 || h == 10 || h == 17 {
        5
    } else if h == 3 || h == 8 || h == 12 || h == 15 {
        3
    } else {
        4
    }
}

/// The Torrey Pines South par for hole `h`.
pub open spec fn torrey_pines_south_par(h: u8) -> u8 {
    if h == 5 || h == 6 || h == 9 || h == 13 || h == 18 {
        5
    } else if h == 3 || h == 8 || h == 11 || h == 16 {
        3
    } else {
        4
    }
}

/// A layout holds exactly holes 1..=holes, the par of each given by
/// `par` at that hole.
pub open spec fn is_layout(m: Map<u8, u8>, holes: u8, par: spec_fn(u8) -> u8) -> bool {
    &&& forall|h: u8| #[trigger] m.contains_key(h) <==> 1 <= h <= holes
    &&& forall|h: u8| #[trigger] m.contains_key(h) ==> m[h] == par(h)
}

/// The par functions above, selected by a small code so that one filler
/// loop can build every table: 0 is the standard pattern, then the five
/// named courses in the order they are listed.
pub open spec fn par_by_code(code: int, h: u8) -> u8 {
    if code == 1 {
        augusta_national_par(h)
    } else if code == 2 {
        pebble_beach_par(h)
    } else if code == 3 {
        st_andrews_par(h)
    } else if code == 4 {
        torrey_pines_north_par(h)
    } else if code == 5 {
        torrey_pines_south_par(h)
    } else {
        standard_par(h)
    }
}

fn course_par_at(code: u8, hole: u8) -> (r: u8)
    ensures
        r == par_by_code(code as int, hole),
{
    if code == 1 {
        if hole == 2 || hole == 8 || hole == 13 || hole == 15 {
            5
        } else if hole == 4 || hole == 6 || hole == 12 || hole == 16 {
            3
        } else {
            4
        }
    } else if code == 2 {
        if hole == 2 || hole == 6 || hole == 14 || hole == 18 {
            5
        } else if hole == 4 || hole == 7 || hole == 12 || hole == 16 {
            3
        } else {
            4
        }
    } else if code == 3 {
        if hole == 4 || hole == 9 || hole == 15 {
            5
        } else if hole == 5 || hole == 8 || hole == 12 || hole == 16 {
            3
        } else {
            4
        }
    } else if code == 4 {
        if hole == 5 || hole == 9 || hole == 10 || hole == 17 {
            5
        } else if hole == 3 || hole == 8 || hole == 12 || hole == 15 {
            3
        } else {
            4
        }
    } else if code == 5 {
        if hole == 5 || hole == 6 || hole == 9 || hole == 13 || hole == 18 {
            5
        } else if hole == 3 || hole == 8 || hole == 11 || hole == 16 {
            3
        } else {
            4
        }
    } else {
        if hole % 3 == 0 {
            5
        } else if hole % 3 == 1 {
            4
        } else {
            3
        }
    }
}

fn fill_course(code: u8, holes: u8) -> (r: BTreeMap<u8, u8>)
    ensures
        is_layout(r@, holes, |h: u8| par_by_code(code as int, h)),
{
    let mut pars: BTreeMap<u8, u8> = BTreeMap::new();
    let mut h: u16 = 1;
    while h <= holes as u16
        invariant
            1 <= h <= holes as u16 + 1,
            forall|k: u8| #[trigger] pars@.contains_key(k) <==> 1 <= k < h,
            forall|k: u8| #[trigger] pars@.contains_key(k) ==> pars@[k] == par_by_code(
                code as int,
                k,
            ),
        decreases holes as int + 1 - h,
    {
        let hole = h as u8;
        let par = course_par_at(code, hole);
        pars.insert(hole, par);
        h = h + 1;
    }
    pars
}

/// Creates a standard course of the given length, with pars distributed
/// 4, 3, 5, 4, 3, 5, ... over the holes.
pub fn create_standard_pars(holes: u8) -> (r: BTreeMap<u8, u8>)
    ensures
        is_layout(r@, holes, |h: u8| standard_par(h)),
{
    let pars = fill_course(0, holes);
    proof {
        assert forall|k: u8| #[trigger] pars@.contains_key(k) implies pars@[k] == standard_par(
            k,
        ) by {
            assert(pars@[k] == par_by_code(0, k));
        }
    }
    pars
}

/// The Augusta National (Masters Tournament) layout: 18 holes, total
/// par 72, par 3 at holes 4, 6, 12 and 16, par 5 at holes 2, 8, 13
/// and 15.
pub fn create_august_national_pars() -> (r: BTreeMap<u8, u8>)
    ensures
        is_layout(r@, 18, |h: u8| augusta_national_par(h)),
{
    fill_course(1, 18)
}

/// The Pebble Beach layout: 18 holes.
pub fn create_pebble_beach_pars() -> (r: BTreeMap<u8, u8>)
    ensures
        is_layout(r@, 18, |h: u8| pebble_beach_par(h)),
{
    fill_course(2, 18)
}

/// The St Andrews (Old Course) layout: 18 holes.
pub fn create_st_andrews_pars() -> (r: BTreeMap<u8, u8>)
    ensures
        is_layout(r@, 18, |h: u8| st_andrews_par(h)),
{
    fill_course(3, 18)
}

/// The Torrey Pines North layout: 18 holes.
pub fn torrey_pines_north_course_pars() -> (r: BTreeMap<u8, u8>)
    ensures
        is_layout(r@, 18, |h: u8| torrey_pines_north_par(h)),
{
    fill_course(4, 18)
}

/// The Torrey Pines South layout: 18 holes.
pub fn torrey_pines_south_course_pars() -> (r: BTreeMap<u8, u8>)
    ensures
        is_layout(r@, 18, |h: u8| torrey_pines_south_par(h)),
{
    fill_course(5, 18)
}

/// The catalog code a course name selects: the five named courses in
/// order, or 0 (the standard pattern) for any other name.
pub open spec fn code_of_name(name: Seq<char>) -> int {
    if name == "Augusta_National"@ {
        1int
    } else if name == "Pebble_Beach"@ {
        2int
    } else if name == "St_Andrews"@ {
        3int
    } else if name == "Torrey_Pines_North"@ {
        4int
    } else if name == "Torrey_Pines_South"@ {
        5int
    } else {
        0int
    }
}

fn str_equal(a: &str, b: &str) -> (r: bool)
    ensures
        r == (a@ == b@),
{
    let sa = String::from_str(a);
    let sb = String::from_str(b);
    sa.eq(&sb)
}

/// Gets a course layout by name: one of the five named courses when the
/// name matches its catalog entry, otherwise a standard layout with the
/// given number of holes.
pub fn get_course_pars(course_name: &str, holes: u8) -> (r: BTreeMap<u8, u8>)
    ensures
        is_layout(
            r@,
            if code_of_name(course_name@) == 0 {
                holes
            } else {
                18
            },
            |h: u8| par_by_code(code_of_name(course_name@), h),
        ),
{
    let code: u8 = if str_equal(course_name, "Augusta_National") {
        1
    } else if str_equal(course_name, "Pebble_Beach") {
        2
    } else if str_equal(course_name, "St_Andrews") {
        3
    } else if str_equal(course_name, "Torrey_Pines_North") {
        4
    } else if str_equal(course_name, "Torrey_Pines_South") {
        5
    } else {
        0
    };
    let holes = if code == 0 {
        holes
    } else {
        18
    };
    fill_course(code, holes)
}

/// The catalog of named courses: each name paired with its full
/// layout, in catalog order.
pub fn get_course_catalog() -> (r: Vec<(String, BTreeMap<u8, u8>)>)
    ensures
        r@.len() == 5,
        r@[0].0@ == "Augusta_National"@ && is_layout(r@[0].1@, 18, |h: u8| par_by_code(1, h)),
        r@[1].0@ == "Pebble_Beach"@ && is_layout(r@[1].1@, 18, |h: u8| par_by_code(2, h)),
        r@[2].0@ == "St_Andrews"@ && is_layout(r@[2].1@, 18, |h: u8| par_by_code(3, h)),
        r@[3].0@ == "Torrey_Pines_North"@ && is_layout(r@[3].1@, 18, |h: u8| par_by_code(4, h)),
        r@[4].0@ == "Torrey_Pines_South"@ && is_layout(r@[4].1@, 18, |h: u8| par_by_code(5, h)),
{
    let mut catalog: Vec<(String, BTreeMap<u8, u8>)> = Vec::new();
    catalog.push((String::from_str("Augusta_National"), fill_course(1, 18)));
    catalog.push((String::from_str("Pebble_Beach"), fill_course(2, 18)));
    catalog.push((String::from_str("St_Andrews"), fill_course(3, 18)));
    catalog.push((String::from_str("Torrey_Pines_North"), fill_course(4, 18)));
    catalog.push((String::from_str("Torrey_Pines_South"), fill_course(5, 18)));
    catalog
}

/// Lists the names understood by `get_course_pars`, catalog order.
pub fn list_available_courses() -> (r: Vec<String>)
    ensures
        r@.len() == 5,
        r@[0]@ == "Augusta_National"@,
        r@[1]@ == "Pebble_Beach"@,
        r@[2]@ == "St_Andrews"@,
        r@[3]@ == "Torrey_Pines_North"@,
        r@[4]@ == "Torrey_Pines_South"@,
{
    let mut names: Vec<String> = Vec::new();
    names.push(String::from_str("Augusta_National"));
    names.push(String::from_str("Pebble_Beach"));
    names.push(String::from_str("St_Andrews"));
    names.push(String::from_str("Torrey_Pines_North"));
    names.push(String::from_str("Torrey_Pines_South"));
    names
}

} // verus!
