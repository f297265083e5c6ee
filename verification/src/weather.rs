use vstd::prelude::*;
use vstd::string::*;
use crate::request::{build_url, url_spec};
use crate::timestamps::{trunc_div_i128, whole_seconds};

verus! {

/// The description and emoji of a Tomorrow.io weather code, if it is a known one.
pub open spec fn weather_code_info_spec(code: u16) -> Option<(Seq<char>, Seq<char>)> {
    if code == 0 {
        Some(("unknown"@, "❓"@))
    } else if code == 1000 {
        Some(("clear"@, "☀️"@))
    } else if code == 1001 {
        Some(("cloudy"@, "☁️"@))
    } else if code == 1100 {
        Some(("mostly clear"@, "🌤️"@))
    } else if code == 1101 {
        Some(("partly cloudy"@, "⛅"@))
    } else if code == 1102 {
        Some(("mostly cloudy"@, "🌥️"@))
    } else if code == 2000 {
        Some(("foggy"@, "🌫️🌫️"@))
    } else if code == 2100 {
        Some(("just a little bit of fog"@, "🌫️"@))
    } else if code == 3000 {
        Some(("a little bit of wind"@, "🍃"@))
    } else if code == 3001 {
        Some(("some wind"@, "💨"@))
    } else if code == 3002 {
        Some(("quite windy"@, "🌬️"@))
    } else if code == 4000 {
        Some(("a bit of a drizzle"@, "🌦️"@))
    } else if code == 4001 {
        Some(("rainy"@, "🌧️"@))
    } else if code == 4200 {
        Some(("just a little bit of rain"@, "🌦️🌦️"@))
    } else if code == 4201 {
        Some(("very very rainy"@, "🌧️🌧️"@))
    } else if code == 5000 {
        Some(("snowy"@, "❄️"@))
    } else if code == 5001 {
        Some(("some flurries"@, "🌨️"@))
    } else if code == 5100 {
        Some(("a little bit of snow"@, "🌨️❄️"@))
    } else if code == 5101 {
        Some(("quite a lot of snow"@, "🌨️️❄❄️"@))
    } else if code == 6000 {
        Some(("freezing drizzle"@, "🌧️❄️"@))
    } else if code == 6001 {
        Some(("freezing rain"@, "🌧️🌧️🌧️❄"@))
    } else if code == 6200 {
        Some(("light freezing rain"@, "🌧️🌧️❄️"@))
    } else if code == 6201 {
        Some(("heavy freezing rain"@, "🌧️🌧️🌧️🌧️❄️"@))
    } else if code == 7000 {
        Some(("ice pellets - watch your head"@, "🧊🧊"@))
    } else if code == 7101 {
        Some(("heavy ice pellets - dangerous!"@, "🧊🧊🧊"@))
    } else if code == 7102 {
        Some(("light ice pellets - you'll be okay"@, "🧊"@))
    } else if code == 8000 {
        Some(("thunderstorm - beware!"@, "⛈️"@))
    } else {
        None
    }
}

/// The description and emoji of a Tomorrow.io weather code, if it is a known one.
pub fn weather_code_info(code: u16) -> (res: Option<(&'static str, &'static str)>)
    ensures
        match (weather_code_info_spec(code), res) {
            (Some((d, e)), Some((rd, re))) => rd@ == d && re@ == e,
            (None, None) => true,
            _ => false,
        },
{
    match code {
        0 => Some(("unknown", "❓")),
        1000 => Some(("clear", "☀️")),
        1001 => Some(("cloudy", "☁️")),
        1100 => Some(("mostly clear", "🌤️")),
        1101 => Some(("partly cloudy", "⛅")),
        1102 => Some(("mostly cloudy", "🌥️")),
        2000 => Some(("foggy", "🌫️🌫️")),
        2100 => Some(("just a little bit of fog", "🌫️")),
        3000 => Some(("a little bit of wind", "🍃")),
        3001 => Some(("some wind", "💨")),
        3002 => Some(("quite windy", "🌬️")),
        4000 => Some(("a bit of a drizzle", "🌦️")),
        4001 => Some(("rainy", "🌧️")),
        4200 => Some(("just a little bit of rain", "🌦️🌦️")),
        4201 => Some(("very very rainy", "🌧️🌧️")),
        5000 => Some(("snowy", "❄️")),
        5001 => Some(("some flurries", "🌨️")),
        5100 => Some(("a little bit of snow", "🌨️❄️")),
        5101 => Some(("quite a lot of snow", "🌨️️❄❄️")),
        6000 => Some(("freezing drizzle", "🌧️❄️")),
        6001 => Some(("freezing rain", "🌧️🌧️🌧️❄")),
        6200 => Some(("light freezing rain", "🌧️🌧️❄️")),
        6201 => Some(("heavy freezing rain", "🌧️🌧️🌧️🌧️❄️")),
        7000 => Some(("ice pellets - watch your head", "🧊🧊")),
        7101 => Some(("heavy ice pellets - dangerous!", "🧊🧊🧊")),
        7102 => Some(("light ice pellets - you'll be okay", "🧊")),
        8000 => Some(("thunderstorm - beware!", "⛈️")),
        _ => None,
    }
}

/// Tomorrow.io's weather codes, each with the description and emoji that the dashboard shows for
/// it (for example, code 4001 is rain: "rainy", 🌧️); every other code is unknown.
pub proof fn law_weather_codes_follow_tomorrow_io()
    ensures
        weather_code_info_spec(0u16) == Some(("unknown"@, "❓"@)),
        weather_code_info_spec(1000u16) == Some(("clear"@, "☀️"@)),
        weather_code_info_spec(1001u16) == Some(("cloudy"@, "☁️"@)),
        weather_code_info_spec(1100u16) == Some(("mostly clear"@, "🌤️"@)),
        weather_code_info_spec(1101u16) == Some(("partly cloudy"@, "⛅"@)),
        weather_code_info_spec(1102u16) == Some(("mostly cloudy"@, "🌥️"@)),
        weather_code_info_spec(2000u16) == Some(("foggy"@, "🌫️🌫️"@)),
        weather_code_info_spec(2100u16) == Some(("just a little bit of fog"@, "🌫️"@)),
        weather_code_info_spec(3000u16) == Some(("a little bit of wind"@, "🍃"@)),
        weather_code_info_spec(3001u16) == Some(("some wind"@, "💨"@)),
        weather_code_info_spec(3002u16) == Some(("quite windy"@, "🌬️"@)),
        weather_code_info_spec(4000u16) == Some(("a bit of a drizzle"@, "🌦️"@)),
        weather_code_info_spec(4001u16) == Some(("rainy"@, "🌧️"@)),
        weather_code_info_spec(4200u16) == Some(("just a little bit of rain"@, "🌦️🌦️"@)),
        weather_code_info_spec(4201u16) == Some(("very very rainy"@, "🌧️🌧️"@)),
        weather_code_info_spec(5000u16) == Some(("snowy"@, "❄️"@)),
        weather_code_info_spec(5001u16) == Some(("some flurries"@, "🌨️"@)),
        weather_code_info_spec(5100u16) == Some(("a little bit of snow"@, "🌨️❄️"@)),
        weather_code_info_spec(5101u16) == Some(("quite a lot of snow"@, "🌨️️❄❄️"@)),
        weather_code_info_spec(6000u16) == Some(("freezing drizzle"@, "🌧️❄️"@)),
        weather_code_info_spec(6001u16) == Some(("freezing rain"@, "🌧️🌧️🌧️❄"@)),
        weather_code_info_spec(6200u16) == Some(("light freezing rain"@, "🌧️🌧️❄️"@)),
        weather_code_info_spec(6201u16) == Some(("heavy freezing rain"@, "🌧️🌧️🌧️🌧️❄️"@)),
        weather_code_info_spec(7000u16) == Some(("ice pellets - watch your head"@, "🧊🧊"@)),
        weather_code_info_spec(7101u16) == Some(("heavy ice pellets - dangerous!"@, "🧊🧊🧊"@)),
        weather_code_info_spec(7102u16) == Some(("light ice pellets - you'll be okay"@, "🧊"@)),
        weather_code_info_spec(8000u16) == Some(("thunderstorm - beware!"@, "⛈️"@)),
        forall|code: u16| #[trigger] weather_code_info_spec(code) is Some ==> (code == 0 || code == 1000 || code == 1001 || code == 1100 || code == 1101 || code == 1102 || code == 2000 || code == 2100 || code == 3000 || code == 3001 || code == 3002 || code == 4000 || code == 4001 || code == 4200 || code == 4201 || code == 5000 || code == 5001 || code == 5100 || code == 5101 || code == 6000 || code == 6001 || code == 6200 || code == 6201 || code == 7000 || code == 7101 || code == 7102 || code == 8000),
{
}

/// How far a weather prediction for `interval_time` is from `curr_time`: the whole seconds
/// between them, in either direction.
pub open spec fn interval_distance(interval_time: int, curr_time: int) -> int {
    let secs = whole_seconds(interval_time - curr_time);
    if secs < 0 {
        -secs
    } else {
        secs
    }
}

fn interval_distance_exec(interval_time: i64, curr_time: i64) -> (res: i128)
    ensures
        res == interval_distance(interval_time as int, curr_time as int),
{
    let secs = trunc_div_i128(interval_time as i128 - curr_time as i128, 1_000_000_000);
    if secs < 0 {
        -secs
    } else {
        secs
    }
}

/// The position of the weather prediction closest to `curr_time` (the first of the closest,
/// if several are equally close), or `None` if there are none (times in nanoseconds since the
/// Unix epoch).
pub fn closest_interval_index(interval_times: &Vec<i64>, curr_time: i64) -> (res: Option<usize>)
    ensures
        match res {
            Some(i) => {
                &&& i < interval_times@.len()
                &&& forall|j: int| 0 <= j < interval_times@.len() ==> interval_distance(interval_times@[i as int] as int, curr_time as int)
                    <= #[trigger] interval_distance(interval_times@[j] as int, curr_time as int)
                &&& forall|j: int| 0 <= j < i ==> interval_distance(interval_times@[i as int] as int, curr_time as int)
                    < #[trigger] interval_distance(interval_times@[j] as int, curr_time as int)
            },
            None => interval_times@.len() == 0,
        },
{
    if interval_times.len() == 0 {
        return None;
    }
    let mut best: usize = 0;
    let mut best_distance = interval_distance_exec(interval_times[0], curr_time);
    let mut j: usize = 1;
    while j < interval_times.len()
        invariant
            1 <= j <= interval_times@.len(),
            best < j,
            best_distance == interval_distance(interval_times@[best as int] as int, curr_time as int),
            forall|k: int| 0 <= k < j ==> best_distance <= #[trigger] interval_distance(interval_times@[k] as int, curr_time as int),
            forall|k: int| 0 <= k < best ==> best_distance < #[trigger] interval_distance(interval_times@[k] as int, curr_time as int),
        decreases interval_times@.len() - j,
    {
        let d = interval_distance_exec(interval_times[j], curr_time);
        if d < best_distance {
            best = j;
            best_distance = d;
        }
        j = j + 1;
    }
    Some(best)
}

/// The address of the weather proxy, tried first.
pub open spec fn weather_proxy_url() -> Seq<char> {
    "https://api-2.wbor.org/weather"@
}

/// The two addresses the weather comes from: the proxy, and then Tomorrow.io itself, asked for
/// predictions a minute apart at `location`, in degrees Fahrenheit.
pub fn weather_request_urls(api_key: &str, location: &str) -> (res: (String, String))
    ensures
        res.0@ == weather_proxy_url(),
        res.1@ == url_spec(
            "https://api.tomorrow.io/v4/timelines"@,
            Seq::empty(),
            seq![
                ("apikey"@, api_key@),
                ("location"@, location@),
                ("timesteps"@, "1m"@),
                ("units"@, "imperial"@),
                ("fields"@, "temperature,weatherCode"@),
            ],
        ),
{
    let path_params: Vec<String> = Vec::new();
    let mut query_params: Vec<(String, String)> = Vec::new();
    query_params.push((String::from_str("apikey"), String::from_str(api_key)));
    query_params.push((String::from_str("location"), String::from_str(location)));
    query_params.push((String::from_str("timesteps"), String::from_str("1m")));
    query_params.push((String::from_str("units"), String::from_str("imperial")));
    query_params.push((String::from_str("fields"), String::from_str("temperature,weatherCode")));
    let fallback = build_url("https://api.tomorrow.io/v4/timelines", path_params.as_slice(), query_params.as_slice());
    proof {
        assert(path_params@.map_values(|p: String| p@) =~= Seq::<Seq<char>>::empty());
        assert(query_params@.map_values(|q: (String, String)| (q.0@, q.1@)) =~= seq![
            ("apikey"@, api_key@),
            ("location"@, location@),
            ("timesteps"@, "1m"@),
            ("units"@, "imperial"@),
            ("fields"@, "temperature,weatherCode"@),
        ]);
    }
    (String::from_str("https://api-2.wbor.org/weather"), fallback)
}

} // verus!
