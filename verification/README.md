# ac_client

The decisions of a game client that plays for itself: when a character spends
its experience and on what, when it goes to town and to which counter, what it
buys, sells and hands over, where it hunts, and how a party restocks together.
It also keeps every character's inventory in one place to search.

`src/` is the verified library. A decision takes plain values and the running
state, changes the state, and gives orders: lines to log, things to use, walks
to plan. Where it depends on something only the world can do (whether a journey
could be planned, what a counter answered), it says what to ask, and a second
function takes the answer. Numbers that are floating point in the game are
exact here: `single` computes them bit for bit over integers.

* `single`, `clock`, `place`, `text`, `order`: numbers, moments, places, texts.
* `logistics`, `logistics_laws`, `party`: a party that restocks.
* `advance`, `raises`, `raises_laws`, `spending`: experience.
* `burden`, `carrying`, `things`, `pour`: what is carried.
* `wares`, `needs`, `casting`: what is sold and what is short.
* `counters`, `ways`, `vendors`: which counter to walk to.
* `state`, `setting_out`, `townrun`, `run`, `stops`, `hand`: a run to town.
* `hunt`, `hunting`: where to hunt. `grow`: one tick of all of it.
* `records`, `holdings`, `store`, `snapshot`, `items`: what every character
  holds.
* `client`, `logoff`, `config`, `orders`: the session around it.

`tests/` runs the library on concrete values. `app/` is the ordinary code around
it: files, JSON, the clock, and the loop that carries orders out.
